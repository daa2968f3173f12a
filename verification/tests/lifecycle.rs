use mcpls_core::config::ServerId;
use mcpls_core::lifecycle::{ServerLifecycle, Translator};

#[test]
fn test_every_state_renders_for_a_reader() {
    let rendered: Vec<String> = ServerLifecycle::all()
        .iter()
        .map(|state| state.to_text())
        .collect();
    assert_eq!(
        rendered,
        vec![
            "idle",
            "starting",
            "running",
            "not installed",
            "failed",
            "stopped"
        ]
    );
}

#[test]
fn test_a_missing_binary_is_not_the_same_state_as_a_crash() {
    assert_ne!(ServerLifecycle::NotInstalled, ServerLifecycle::Failed);
    assert_eq!(ServerLifecycle::NotInstalled.to_text(), "not installed");
    assert_eq!(ServerLifecycle::Failed.to_text(), "failed");
}

#[test]
fn test_lifecycles_are_reported_in_a_stable_order() {
    let mut translator = Translator::new();
    translator.set_lifecycle(&ServerId::from("typescript"), ServerLifecycle::Idle);
    translator.set_lifecycle(&ServerId::from("rust"), ServerLifecycle::Running);
    let reported: Vec<String> = translator
        .lifecycles()
        .into_iter()
        .map(|(id, _)| id.as_str().to_string())
        .collect();
    assert_eq!(reported, vec!["rust", "typescript"]);
}

#[test]
fn test_only_one_caller_claims_a_spawn() {
    let mut translator = Translator::new();
    let id = ServerId::from("rust");
    translator.set_lifecycle(&id, ServerLifecycle::Idle);
    assert!(translator.begin_starting(&id));
    assert!(!translator.begin_starting(&id));
    assert_eq!(
        translator.lifecycle_of(&id),
        Some(ServerLifecycle::Starting)
    );
}

#[test]
fn test_a_settled_failure_is_not_claimed_as_a_spawn() {
    let mut translator = Translator::new();
    let id = ServerId::from("rust");
    translator.set_lifecycle(&id, ServerLifecycle::NotInstalled);
    assert!(!translator.begin_starting(&id));
    assert_eq!(
        translator.lifecycle_of(&id),
        Some(ServerLifecycle::NotInstalled)
    );
}

#[test]
fn test_a_server_absent_from_the_applicable_set_is_not_claimed() {
    let mut translator = Translator::new();
    assert!(!translator.begin_starting(&ServerId::from("rust")));
    assert_eq!(translator.lifecycle_of(&ServerId::from("rust")), None);
}

#[test]
fn test_a_running_entry_is_claimable_because_death_is_not_published() {
    let mut translator = Translator::new();
    let id = ServerId::from("rust");
    translator.set_lifecycle(&id, ServerLifecycle::Running);
    assert!(translator.begin_starting(&id));
}

#[test]
fn test_a_stopped_server_keeps_its_state_against_a_spawn_outcome() {
    let mut translator = Translator::new();
    let id = ServerId::from("rust");
    translator.set_lifecycle(&id, ServerLifecycle::Idle);
    assert!(translator.begin_starting(&id));
    translator.set_lifecycle(&id, ServerLifecycle::Stopped);
    assert!(!translator.finish_spawn(&id, ServerLifecycle::Running));
    assert_eq!(translator.lifecycle_of(&id), Some(ServerLifecycle::Stopped));
    assert!(!translator.release_stopped_spawn(&id));

    translator.set_lifecycle(&id, ServerLifecycle::Idle);
    assert!(translator.begin_starting(&id));
    assert!(translator.finish_spawn(&id, ServerLifecycle::Running));
    assert_eq!(translator.lifecycle_of(&id), Some(ServerLifecycle::Running));
}

#[test]
fn test_a_start_during_a_stopped_spawn_adopts_it() {
    let mut translator = Translator::new();
    let id = ServerId::from("rust");
    translator.set_lifecycle(&id, ServerLifecycle::Idle);
    assert!(translator.begin_starting(&id));
    translator.set_lifecycle(&id, ServerLifecycle::Stopped);

    translator.reset_for_explicit_start(&id);
    assert_eq!(
        translator.lifecycle_of(&id),
        Some(ServerLifecycle::Starting)
    );
    assert!(
        !translator.begin_starting(&id),
        "the adopted spawn is the only one"
    );
    assert!(translator.finish_spawn(&id, ServerLifecycle::Running));
    assert_eq!(translator.lifecycle_of(&id), Some(ServerLifecycle::Running));
}

#[test]
fn test_an_abandoned_spawn_frees_the_claim_and_keeps_a_stop() {
    let mut translator = Translator::new();
    let id = ServerId::from("rust");
    translator.set_lifecycle(&id, ServerLifecycle::Idle);
    assert!(translator.begin_starting(&id));
    translator.set_lifecycle(&id, ServerLifecycle::Stopped);
    translator.abandon_spawn(&id, ServerLifecycle::Failed);
    assert_eq!(translator.lifecycle_of(&id), Some(ServerLifecycle::Stopped));

    translator.reset_for_explicit_start(&id);
    assert_eq!(translator.lifecycle_of(&id), Some(ServerLifecycle::Idle));
    assert!(translator.begin_starting(&id));
}

#[test]
fn test_an_explicit_start_resets_only_states_that_block_a_spawn() {
    let mut translator = Translator::new();
    for (state, expected) in [
        (ServerLifecycle::Stopped, ServerLifecycle::Idle),
        (ServerLifecycle::NotInstalled, ServerLifecycle::Idle),
        (ServerLifecycle::Failed, ServerLifecycle::Idle),
        (ServerLifecycle::Running, ServerLifecycle::Running),
        (ServerLifecycle::Starting, ServerLifecycle::Starting),
    ] {
        let id = ServerId::from(&state.to_text());
        translator.set_lifecycle(&id, state);
        translator.reset_for_explicit_start(&id);
        assert_eq!(translator.lifecycle_of(&id), Some(expected), "{}", state.to_text());
    }
}

#[test]
fn test_a_stopped_server_does_not_claim_a_spawn() {
    let mut translator = Translator::new();
    let id = ServerId::from("rust");
    translator.set_lifecycle(&id, ServerLifecycle::Stopped);
    assert!(!translator.begin_starting(&id));
}

#[test]
fn a_seeded_server_counts_as_starting_and_its_spawn_as_claimed() {
    let mut translator = Translator::new();
    let id = ServerId::from("rust");
    translator.seed_starting(&id);
    assert_eq!(
        translator.lifecycle_of(&id),
        Some(ServerLifecycle::Starting)
    );
    assert!(!translator.begin_starting(&id));
    assert!(translator.finish_spawn(&id, ServerLifecycle::Running));
    assert!(translator.begin_starting(&id), "the claim was released");
}

#[test]
fn a_retired_spawn_gives_its_claim_back_unless_a_start_adopted_it() {
    let mut translator = Translator::new();
    let id = ServerId::from("rust");
    translator.set_lifecycle(&id, ServerLifecycle::Idle);
    assert!(translator.begin_starting(&id));
    assert!(translator.release_stopped_spawn(&id), "it is wanted after all");
    translator.set_lifecycle(&id, ServerLifecycle::Stopped);
    assert!(!translator.release_stopped_spawn(&id));
    translator.set_lifecycle(&id, ServerLifecycle::Idle);
    assert!(translator.begin_starting(&id), "the claim was given back");
}

#[test]
fn servers_do_not_affect_each_other() {
    let mut translator = Translator::new();
    let rust = ServerId::from("rust");
    let python = ServerId::from("python");
    translator.set_lifecycle(&rust, ServerLifecycle::Idle);
    translator.set_lifecycle(&python, ServerLifecycle::Idle);
    assert!(translator.begin_starting(&rust));
    assert_eq!(translator.lifecycle_of(&python), Some(ServerLifecycle::Idle));
    assert!(translator.begin_starting(&python));
}
