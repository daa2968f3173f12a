use mcpls_core::config::{ConfigSource, ServerConfig};
use mcpls_core::control::{
    ask, start, stop, stop_after_probe, stop_request, Contact, Found, StartAction, StartError,
    StartEvent, StartState, StopAction, Stopped, START_WAIT, STOP_WAIT,
};
use mcpls_core::endpoint::{fingerprint_note, Attachments, Endpoint, IdleWatch, Then};
use mcpls_core::frontend::{
    busy_starting, did_not_start, handshake_event, refused, start_failed, trust_state, Attach,
    AttachAction, AttachEvent, Place, Timing,
};
use mcpls_core::handshake::{ConfigStamp, ConnectionKind, Handshake, HandshakeReply, Refusal, VERSION};
use mcpls_core::identity::{ConnectionId, SessionId};
use mcpls_core::spawn::{
    after_lock_attempt, log_starts_over, start_requested, wait_for_startup, BackendLaunch,
    LockNext, RequestAction, RequestEvent, RequestState, StartupNext, MAX_LOG_BYTES,
    RUNNING_PROBE, STARTUP_RETRY,
};
use mcpls_core::stub::{answer, StubReply};

/// An arbitrary moment, in nanoseconds.
const START: u64 = 1_000_000_000_000;

const MILLISECOND: u64 = 1_000_000;

fn launch(root: &str) -> BackendLaunch {
    BackendLaunch {
        root: root.to_string(),
        config: Some("/etc/mcpls.toml".to_string()),
        trust_project_config: true,
        log_level: "debug".to_string(),
        log_json: true,
    }
}

#[test]
fn test_the_launch_arguments_name_every_setting() {
    let args = launch("/work").args();
    assert_eq!(
        args,
        [
            "--config",
            "/etc/mcpls.toml",
            "--trust-project-config",
            "--log-level",
            "debug",
            "--log-json",
            "backend",
            "--root",
            "/work",
        ]
    );
}

#[test]
fn test_optional_launch_arguments_are_left_out() {
    let bare = BackendLaunch {
        config: None,
        trust_project_config: false,
        log_json: false,
        ..launch("/work")
    };
    assert_eq!(
        bare.args(),
        ["--log-level", "debug", "backend", "--root", "/work"]
    );
}

#[test]
fn test_the_spawn_lock_admits_one_holder() {
    assert_eq!(after_lock_attempt(true, START, START), LockNext::Held);
    assert_eq!(after_lock_attempt(false, START, START + 1), LockNext::Retry);
    assert_eq!(after_lock_attempt(false, START, START), LockNext::GiveUp);
}

#[test]
fn test_an_oversized_log_starts_over() {
    assert!(log_starts_over(Some(MAX_LOG_BYTES + 1)));
    assert!(!log_starts_over(Some(4)));
    assert!(!log_starts_over(None));
}

/// Runs a request against a world in which each action has a fixed answer, and
/// returns the actions and the end.
fn run_request(present: bool, locked: bool, running: bool) -> (Vec<RequestAction>, RequestAction) {
    let mut state = RequestState::Looking;
    let mut event = if present { RequestEvent::Yes } else { RequestEvent::No };
    let mut actions = vec![];
    loop {
        let (next, action) = start_requested(state, event);
        state = next;
        event = match &action {
            RequestAction::Lock => {
                if locked {
                    RequestEvent::Yes
                } else {
                    RequestEvent::No
                }
            }
            RequestAction::Probe => {
                if running {
                    RequestEvent::Yes
                } else {
                    RequestEvent::No
                }
            }
            RequestAction::Done(_) | RequestAction::Fail(_) => return (actions, action),
            _ => RequestEvent::Yes,
        };
        actions.push(action);
    }
}

#[test]
fn test_no_request_starts_nothing() {
    assert_eq!(
        run_request(false, true, false),
        (vec![], RequestAction::Done(false))
    );
}

#[test]
fn test_a_request_is_honoured_once() {
    let (actions, end) = run_request(true, true, false);
    assert_eq!(end, RequestAction::Done(true));
    assert_eq!(
        actions
            .iter()
            .filter(|a| **a == RequestAction::Spawn)
            .count(),
        1
    );
    let removed = actions.iter().position(|a| *a == RequestAction::Remove);
    let spawned = actions.iter().position(|a| *a == RequestAction::Spawn);
    assert!(removed < spawned, "the request is gone before the spawn");
}

#[test]
fn test_a_second_request_cannot_spawn_during_delayed_bind() {
    let (actions, end) = run_request(true, false, false);
    assert_eq!(end, RequestAction::Done(false));
    assert!(!actions.contains(&RequestAction::Spawn));
    assert!(!actions.contains(&RequestAction::Remove));
}

#[test]
fn test_a_request_for_a_running_backend_is_dropped() {
    let (actions, end) = run_request(true, true, true);
    assert_eq!(end, RequestAction::Done(false));
    assert!(actions.contains(&RequestAction::Remove));
    assert!(!actions.contains(&RequestAction::Spawn));
}

#[test]
fn a_startup_is_probed_until_its_deadline() {
    assert_eq!(
        wait_for_startup(true, false, START, START + 1),
        StartupNext::Stop
    );
    assert_eq!(
        wait_for_startup(false, true, START, START + 1),
        StartupNext::Stop
    );
    assert_eq!(
        wait_for_startup(false, false, START, START),
        StartupNext::Stop
    );
    assert_eq!(
        wait_for_startup(false, false, START, START + 1),
        StartupNext::Probe { probe: 1, retry: 1 }
    );
    assert_eq!(
        wait_for_startup(false, false, START, 2 * START),
        StartupNext::Probe { probe: RUNNING_PROBE, retry: STARTUP_RETRY }
    );
}

#[test]
fn test_initialize_carries_the_reason_in_the_instructions() {
    let reply = answer(
        true,
        Some("initialize"),
        Some("2025-11-25"),
        "Use the tools.",
        "No backend.",
    )
    .expect("initialize is answered");
    let StubReply::Initialize { protocol_version, instructions } = reply else {
        panic!("initialize is answered as such");
    };
    assert_eq!(protocol_version, "2025-11-25");
    assert!(instructions.ends_with(" No backend."));
    assert_eq!(instructions, "Use the tools. No backend.");
}

#[test]
fn test_the_tool_list_is_the_frozen_surface() {
    assert_eq!(
        answer(true, Some("tools/list"), None, "i", "r"),
        Some(StubReply::Tools)
    );
}

#[test]
fn test_a_tool_call_fails_at_once_with_the_reason() {
    assert_eq!(
        answer(true, Some("tools/call"), None, "i", "Backend stopped."),
        Some(StubReply::ToolFailed("Backend stopped.".to_string()))
    );
}

#[test]
fn test_notifications_are_dropped_and_unknown_requests_fail() {
    assert_eq!(
        answer(false, Some("notifications/initialized"), None, "i", "r"),
        None
    );
    assert_eq!(
        answer(true, Some("resources/read"), None, "i", "gone"),
        Some(StubReply::Error("gone".to_string()))
    );
    assert_eq!(answer(true, None, None, "i", "r"), None);
}

#[test]
fn every_other_method_of_a_session_without_a_backend_is_answered() {
    let reply = |method| answer(true, Some(method), None, "i", "r");
    assert_eq!(reply("ping"), Some(StubReply::Empty));
    assert_eq!(reply("resources/list"), Some(StubReply::Resources));
    assert_eq!(
        reply("resources/templates/list"),
        Some(StubReply::ResourceTemplates)
    );
    assert_eq!(
        reply("initialize"),
        Some(StubReply::Initialize {
            protocol_version: "2025-06-18".to_string(),
            instructions: "i r".to_string(),
        })
    );
}

fn place() -> Place {
    Place {
        root: "/work".to_string(),
        log: "/run/mcpls/x.log".to_string(),
    }
}

fn fast() -> Timing {
    Timing { start: 300 * MILLISECOND, gone: 300 * MILLISECOND }
}

fn config(source: ConfigSource, project_config_ignored: bool) -> ServerConfig {
    ServerConfig {
        fingerprint: "00000000000000ff".to_string(),
        source,
        project_config_ignored,
    }
}

fn plain() -> ServerConfig {
    config(ConfigSource::Global, false)
}

fn request() -> Handshake {
    Handshake::mcp("/work".to_string(), None, ConfigStamp::of(&plain()))
}

fn accepted() -> HandshakeReply {
    HandshakeReply::new(1, 0, None)
}

fn refusal(version: &str, sessions: usize, refusal: Refusal) -> HandshakeReply {
    HandshakeReply {
        version: version.to_string(),
        ..HandshakeReply::new(1, sessions, Some(refusal))
    }
}

/// What a scripted endpoint does to one connection.
enum Script {
    Nobody,
    Busy,
    Server(HandshakeReply),
}

struct Run {
    outcome: AttachAction,
    starts: usize,
    shutdowns: usize,
}

/// Attaches against a script, whose last line is repeated as `Nobody`. Starting
/// is answered with `started`, and every pause takes its time.
fn attach(request: Handshake, started: AttachEvent, script: Vec<Script>) -> Run {
    let mut script = script.into_iter();
    let mut attempt = Attach::new(request, place(), fast());
    let mut run = Run { outcome: AttachAction::Nothing, starts: 0, shutdowns: 0 };
    let mut now = START;
    let mut action = AttachAction::Handshake;
    loop {
        let event = match &action {
            AttachAction::Handshake | AttachAction::SendShutdown => {
                if action == AttachAction::SendShutdown {
                    run.shutdowns += 1;
                }
                match script.next() {
                    None | Some(Script::Nobody) => AttachEvent::Absent,
                    Some(Script::Busy) => AttachEvent::Busy,
                    Some(Script::Server(reply)) => AttachEvent::Answered(reply),
                }
            }
            AttachAction::Probe => match script.next() {
                None | Some(Script::Nobody) => AttachEvent::Absent,
                Some(Script::Busy) => AttachEvent::Busy,
                Some(Script::Server(_)) => AttachEvent::Reached,
            },
            AttachAction::Lock(_) => AttachEvent::Locked,
            AttachAction::Start => {
                run.starts += 1;
                started.clone()
            }
            AttachAction::Pause => {
                now += 50 * MILLISECOND;
                AttachEvent::Resumed
            }
            _ => {
                run.outcome = action;
                return run;
            }
        };
        action = attempt.handle(event, now);
    }
}

fn failure(run: &Run) -> &str {
    match &run.outcome {
        AttachAction::Failed(text) => text,
        other => panic!("expected a failure, got {other:?}"),
    }
}

#[test]
fn test_a_backend_that_never_starts_is_reported_with_its_log() {
    let run = attach(request(), AttachEvent::Spawned, vec![]);
    assert!(failure(&run).contains("/run/mcpls/x.log"));
    assert_eq!(run.starts, 1);
}

#[test]
fn test_a_requested_start_waits_for_a_hook() {
    let run = attach(request(), AttachEvent::Requested, vec![]);
    let AttachAction::Waiting(text) = run.outcome else {
        panic!("a requested start waits");
    };
    assert!(text.contains("hook"), "{text}");
}

#[test]
fn test_a_busy_initial_endpoint_does_not_start_another_backend() {
    let run = attach(request(), AttachEvent::Spawned, vec![Script::Busy]);
    assert!(failure(&run).contains("stayed busy"));
    assert_eq!(run.starts, 0);
}

#[test]
fn test_an_idle_older_backend_is_evicted_and_replaced() {
    let run = attach(
        request(),
        AttachEvent::Spawned,
        vec![
            Script::Server(refusal("0.0.1", 0, Refusal::Build)),
            Script::Server(accepted()),
            Script::Nobody,
            Script::Nobody,
            Script::Server(accepted()),
        ],
    );
    assert_eq!(run.outcome, AttachAction::Attached);
    assert_eq!(run.shutdowns, 1);
    assert_eq!(run.starts, 1);
}

#[test]
fn test_a_busy_endpoint_is_not_reported_as_gone_during_eviction() {
    let run = attach(
        request(),
        AttachEvent::Spawned,
        vec![
            Script::Server(refusal("0.0.1", 0, Refusal::Build)),
            Script::Server(accepted()),
            Script::Busy,
        ],
    );
    assert!(failure(&run).contains("0.0.1"));
    assert_eq!(run.shutdowns, 1);
    assert_eq!(run.starts, 0);
}

#[test]
fn test_an_older_backend_with_sessions_is_reported_with_both_versions() {
    let run = attach(
        request(),
        AttachEvent::Spawned,
        vec![Script::Server(refusal("0.0.1", 2, Refusal::Build))],
    );
    let text = failure(&run);
    assert!(text.contains("0.0.1") && text.contains(VERSION), "{text}");
    assert_eq!(run.shutdowns, 0);
    assert_eq!(run.starts, 0);
}

#[test]
fn test_an_older_frontend_never_evicts_a_newer_backend() {
    let run = attach(
        request(),
        AttachEvent::Spawned,
        vec![Script::Server(refusal("999.0.0", 0, Refusal::Build))],
    );
    assert!(failure(&run).contains("older"));
    assert_eq!(run.shutdowns, 0);
}

#[test]
fn test_a_trust_refusal_names_both_states() {
    let backend = config(ConfigSource::Project, false);
    let ignoring = config(ConfigSource::Global, true);
    let request = Handshake::mcp("/work".to_string(), None, ConfigStamp::of(&ignoring));
    let reply = HandshakeReply::new(
        1,
        1,
        Some(Refusal::Trust { backend: ConfigStamp::of(&backend) }),
    );
    let run = attach(request, AttachEvent::Spawned, vec![Script::Server(reply)]);
    let text = failure(&run);
    assert!(text.contains("loaded the project's mcpls.toml"), "{text}");
    assert!(text.contains("ignored the project's mcpls.toml"), "{text}");
}

#[test]
fn an_attempt_reports_a_lock_that_is_never_free_and_a_start_that_fails() {
    let mut attempt = Attach::new(request(), place(), fast());
    assert_eq!(
        attempt.handle(AttachEvent::Absent, START),
        AttachAction::Lock(300 * MILLISECOND)
    );
    assert_eq!(
        attempt.handle(AttachEvent::LockTimedOut, START),
        AttachAction::Failed(busy_starting(&place(), 300 * MILLISECOND))
    );

    let run = attach(
        request(),
        AttachEvent::Failed("no such file".to_string()),
        vec![],
    );
    assert_eq!(
        run.outcome,
        AttachAction::Failed(start_failed(&place(), "no such file"))
    );
}

#[test]
fn the_messages_spell_out_what_to_do() {
    assert_eq!(
        did_not_start(&place(), 10_000_000_000),
        "Tell the user: the mcpls backend for /work did not answer within 10s of being \
         started, so this session has no mcpls tools. Its log is /run/mcpls/x.log. Restart the \
         session after fixing it, or run mcpls with --no-backend."
    );
    assert_eq!(
        trust_state(&ConfigStamp::of(&plain())),
        "does not use the project's mcpls.toml"
    );
    let reply = HandshakeReply::new(1, 0, Some(Refusal::HooksDisabled));
    assert_eq!(
        refused(&place(), &request(), &reply),
        "Tell the user: the mcpls backend serving /work refused this session \
         (Some(HooksDisabled)), so this session has no mcpls tools."
    );
}

#[test]
fn a_contact_is_an_event_of_the_attempt() {
    assert_eq!(handshake_event(Contact::Refused), AttachEvent::Absent);
    assert_eq!(handshake_event(Contact::TimedOut), AttachEvent::Busy);
    assert_eq!(handshake_event(Contact::NoReply), AttachEvent::Absent);
    assert_eq!(handshake_event(Contact::WriteFailed), AttachEvent::Absent);
    assert_eq!(handshake_event(Contact::Unanswered), AttachEvent::Busy);
    assert_eq!(
        handshake_event(Contact::Replied(accepted())),
        AttachEvent::Answered(accepted())
    );
}

fn endpoint(config: &ServerConfig) -> Endpoint {
    Endpoint::new(ConfigStamp::of(config), true)
}

#[test]
fn test_a_shutdown_is_refused_while_a_session_is_attached() {
    let mut backend = endpoint(&plain());
    let (reply, then) = backend.answer(&Handshake::shutdown(), 1, 7).unwrap();
    assert_eq!(reply.refusal, Some(Refusal::Attached));
    assert_eq!(reply.sessions, 1);
    assert_eq!(then, Then::Close);
    let (reply, then) = backend.answer(&Handshake::forced_shutdown(), 1, 7).unwrap();
    assert_eq!(reply.refusal, None);
    assert_eq!(then, Then::ShutDown);
}

#[test]
fn test_a_shutdown_from_any_build_ends_an_idle_backend() {
    let mut backend = endpoint(&plain());
    let mut request = Handshake::shutdown();
    request.version = "999.0.0".to_string();
    let (reply, then) = backend.answer(&request, 0, 7).unwrap();
    assert_eq!(reply.refusal, None);
    assert_eq!(then, Then::ShutDown);
}

#[test]
fn test_another_build_is_refused_with_the_backends_build() {
    let mut backend = endpoint(&plain());
    let mut request = request();
    request.version = "0.0.1".to_string();
    let (reply, _) = backend.answer(&request, 0, 7).unwrap();
    assert_eq!(reply.refusal, Some(Refusal::Build));
    assert_eq!(reply.version, VERSION);
    assert_eq!(reply.pid, 7);
}

#[test]
fn test_a_trust_disagreement_is_refused() {
    let mut backend = endpoint(&config(ConfigSource::Project, false));
    let ignoring = config(ConfigSource::Global, true);
    let request = Handshake::mcp("/work".to_string(), None, ConfigStamp::of(&ignoring));
    let (reply, _) = backend.answer(&request, 0, 7).unwrap();
    assert!(
        matches!(reply.refusal, Some(Refusal::Trust { .. })),
        "{reply:?}"
    );
}

#[test]
fn test_a_different_fingerprint_is_served_and_named() {
    let backend_config = plain();
    let mut backend = endpoint(&backend_config);
    let other = ServerConfig { fingerprint: "abc".to_string(), ..plain() };
    let request = Handshake::mcp(
        "/work".to_string(),
        Some("s1".to_string()),
        ConfigStamp::of(&other),
    );
    let (reply, then) = backend.answer(&request, 0, 7).unwrap();
    assert_eq!(reply.refusal, None);
    let Then::ServeMcp { notes, session } = then else {
        panic!("the session is served");
    };
    assert_eq!(notes.len(), 1);
    assert!(notes[0].contains("abc"), "{}", notes[0]);
    assert_eq!(
        notes[0],
        fingerprint_note(&ConfigStamp::of(&backend_config), &ConfigStamp::of(&other))
    );
    assert_eq!(session, Some(SessionId::from("s1".to_string())));
}

#[test]
fn test_a_handshake_during_the_drain_gets_no_reply() {
    let mut backend = endpoint(&plain());
    backend.close();
    assert_eq!(backend.answer(&request(), 0, 7), None);
}

#[test]
fn a_backend_is_kept_until_it_is_released_or_asked_to_stop() {
    let mut backend = endpoint(&plain());
    let (reply, then) = backend.answer(&Handshake::keep(), 0, 7).unwrap();
    assert!(reply.kept && backend.is_kept());
    assert_eq!(then, Then::ServeHooks);
    backend.answer(&Handshake::release(), 0, 7);
    assert!(!backend.is_kept());
    backend.answer(&Handshake::keep(), 0, 7);
    let (reply, _) = backend.answer(&Handshake::shutdown(), 2, 7).unwrap();
    assert_eq!(reply.refusal, Some(Refusal::Attached));
    assert!(!backend.is_kept(), "a refused stop still ends the keeping");
}

#[test]
fn hooks_that_are_switched_off_are_refused() {
    let mut backend = Endpoint::new(ConfigStamp::of(&plain()), false);
    let (reply, then) = backend.answer(&Handshake::hook(), 0, 7).unwrap();
    assert_eq!(reply.refusal, Some(Refusal::HooksDisabled));
    assert_eq!(then, Then::Close);
}

#[test]
fn test_a_backend_nobody_attaches_to_exits_after_the_idle_timer() {
    let watch = IdleWatch::new(100 * MILLISECOND, 0, false, START);
    assert!(!watch.expired(START + 99 * MILLISECOND));
    assert!(watch.expired(START + 100 * MILLISECOND));
}

#[test]
fn test_an_attached_session_holds_the_backend_open() {
    let mut watch = IdleWatch::new(100 * MILLISECOND, 1, false, START);
    assert!(!watch.expired(START + 400 * MILLISECOND));
    watch.changed(0, false, START + 400 * MILLISECOND);
    assert!(!watch.expired(START + 499 * MILLISECOND));
    assert!(watch.expired(START + 500 * MILLISECOND));
}

#[test]
fn test_idle_timer_restarts_after_a_coalesced_attach_detach() {
    let mut watch = IdleWatch::new(100 * MILLISECOND, 0, false, START);
    watch.changed(0, false, START + 60 * MILLISECOND);
    assert!(!watch.expired(START + 120 * MILLISECOND));
    assert!(watch.expired(START + 160 * MILLISECOND));
}

#[test]
fn test_concurrent_attachment_publications_match_sessions() {
    let mut connections: u64 = 0;
    let mut attached = Attachments::new();
    let ids: Vec<ConnectionId> = (0..3)
        .map(|_| ConnectionId::next(&mut connections))
        .collect();
    for (id, name) in ids.iter().zip(["a", "b", "c"]) {
        attached.attach(*id, name.to_string());
    }
    assert_eq!(attached.count(), 3);
    attached.detach(ids[1]);
    assert_eq!(attached.sessions(), vec!["a", "c"]);
    assert_eq!(attached.count(), attached.sessions().len());
}

#[test]
fn a_backend_is_asked_before_one_is_started() {
    let (state, action) = start(StartState::Locking, StartEvent::Locked, START);
    assert_eq!((state, &action), (StartState::Asking, &StartAction::AskToStay));
    let (state, action) = start(state, StartEvent::Found(Found::Answered(accepted())), START);
    assert_eq!(state, StartState::Over);
    let StartAction::Done(Ok(started)) = action else {
        panic!("a running backend is kept");
    };
    assert!(!started.spawned);

    let (state, action) = start(StartState::Asking, StartEvent::Found(Found::Absent), START);
    assert_eq!((state, &action), (StartState::Spawning, &StartAction::Spawn));
    let (state, _) = start(state, StartEvent::Going { exited: false }, START);
    let (state, action) = start(state, StartEvent::Found(Found::Absent), START);
    assert_eq!(action, StartAction::Pause);
    let (_, action) = start(state, StartEvent::Going { exited: false }, START + START_WAIT);
    assert_eq!(action, StartAction::Done(Err(StartError::NoAnswer)));
}

#[test]
fn every_way_in_which_a_start_fails_has_its_text() {
    let (_, action) = start(StartState::Locking, StartEvent::LockTimedOut, START);
    assert_eq!(action, StartAction::Done(Err(StartError::Locked)));
    let (_, action) = start(StartState::Asking, StartEvent::Found(Found::Busy), START);
    assert_eq!(action, StartAction::Done(Err(StartError::Busy)));
    let failed = StartEvent::Failed("denied".to_string());
    let (_, action) = start(StartState::Spawning, failed, START);
    assert_eq!(
        action,
        StartAction::Done(Err(StartError::Io("denied".to_string())))
    );
    assert_eq!(StartError::Io("denied".to_string()).to_text(), "denied");
    for error in [StartError::Locked, StartError::Busy, StartError::NoAnswer] {
        assert!(!error.to_text().is_empty());
    }
}

#[test]
fn a_stop_waits_for_the_endpoint_to_go_away() {
    assert!(stop_request(true).force);
    assert!(!stop_request(false).force);
    assert_eq!(
        stop(Found::Absent, START),
        StopAction::Done(Stopped::NotRunning)
    );
    assert_eq!(stop(Found::Busy, START), StopAction::Done(Stopped::Busy));
    let attached = HandshakeReply::new(1, 1, Some(Refusal::Attached));
    assert_eq!(
        stop(Found::Answered(attached.clone()), START),
        StopAction::Done(Stopped::Refused(attached))
    );
    let StopAction::Probe { reply, deadline } = stop(Found::Answered(accepted()), START) else {
        panic!("the endpoint is probed");
    };
    assert_eq!(deadline, (START + STOP_WAIT) as u128);
    assert!(matches!(
        stop_after_probe(reply.clone(), deadline, true, START),
        StopAction::Probe { .. }
    ));
    assert_eq!(
        stop_after_probe(reply.clone(), deadline, true, START + STOP_WAIT),
        StopAction::Done(Stopped::Lingering(reply.clone()))
    );
    assert_eq!(
        stop_after_probe(reply.clone(), deadline, false, START),
        StopAction::Done(Stopped::Stopped(reply))
    );
}

#[test]
fn what_a_connection_came_to_says_who_is_there() {
    assert_eq!(ask(Contact::Refused), Found::Absent);
    assert_eq!(ask(Contact::TimedOut), Found::Busy);
    assert_eq!(
        ask(Contact::Replied(accepted())),
        Found::Answered(accepted())
    );
}

#[test]
fn a_request_to_exit_carries_the_frontends_own_build() {
    let ours = request();
    let shutdown = Attach::new(ours.clone(), place(), fast()).shutdown_request();
    assert_eq!(shutdown.kind, ConnectionKind::Shutdown);
    assert_eq!(shutdown.version, ours.version);
    assert_eq!(shutdown.root, ours.root);
    assert_eq!(shutdown.config, ours.config);
}
