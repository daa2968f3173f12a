use mcpls_core::identity::{ConnectionId, HookAgent, HookHost, RecordId, SessionId};

#[test]
fn test_a_named_session_needs_a_nonempty_value() {
    assert_eq!(
        SessionId::named(Some("abc-123".to_string())),
        Some(SessionId::from("abc-123".to_string()))
    );
    assert_eq!(SessionId::named(Some(String::new())), None);
    assert_eq!(SessionId::named(None), None);
}

#[test]
fn test_each_connection_gets_its_own_fallback_session() {
    let mut connections: u64 = 0;
    let first = ConnectionId::next(&mut connections);
    let second = ConnectionId::next(&mut connections);
    assert_ne!(first, second);
    assert_ne!(
        SessionId::for_connection(first),
        SessionId::for_connection(second)
    );
}

#[test]
fn a_fallback_session_is_named_after_its_connection() {
    let mut connections: u64 = 41;
    let connection = ConnectionId::next(&mut connections);
    assert_eq!(connections, 42);
    assert!(SessionId::for_connection(connection)
        .as_str()
        .contains(&connection.to_text()));
}

#[test]
fn a_claude_agent_has_a_record_of_its_own_under_its_session() {
    let agent = HookAgent {
        agent_id: Some("worker".to_string()),
        host: HookHost::Claude,
    };
    let caller = agent.caller("s1");
    assert_eq!(
        caller.record,
        RecordId::ClaudeAgent {
            root: SessionId::from("s1".to_string()),
            agent: "worker".to_string(),
        }
    );
    assert_eq!(caller.root, Some(SessionId::from("s1".to_string())));
}

#[test]
fn a_session_without_an_agent_is_its_own_record() {
    let caller = HookAgent::default().caller("s1");
    assert_eq!(
        caller.record,
        RecordId::of_session(&SessionId::from("s1".to_string()))
    );
}
