use mcpls_core::config::ServerId;
use mcpls_core::error::Error;
use mcpls_core::lifecycle::{ServerLifecycle, Translator};
use mcpls_core::respawn::{
    await_terminal_state, install_server, install_spawned, is_live, is_server_dead,
    merge_after_install, registered_live_client_ids, Ensure, InstallSetting, InstallStep, SpawnNext, SpawnOutcome,
    RESPAWN_BACKOFF_BASE, RESPAWN_BACKOFF_MAX,
};

/// An arbitrary moment, in nanoseconds.
const START: u64 = 1_000_000_000_000;

fn rust() -> ServerId {
    ServerId::from("rust")
}

fn idle() -> Translator {
    let mut translator = Translator::new();
    translator.set_lifecycle(&rust(), ServerLifecycle::Idle);
    translator
}

#[test]
fn test_respawn_backoff_remaining_returns_none_once_delay_elapsed() {
    let mut translator = Translator::new();
    let id = rust();

    translator.record_respawn_failure(&id, START);
    assert!(
        translator.respawn_backoff_remaining(&id, START).is_some(),
        "immediately after a failure, the backoff window must still be active"
    );

    assert!(
        translator
            .respawn_backoff_remaining(&id, START + RESPAWN_BACKOFF_MAX)
            .is_none(),
        "once the clock has advanced past the computed delay, the backoff window must be \
         reported as elapsed"
    );
}

#[test]
fn test_reconcile_respawn_stability_clears_backoff_after_proven_stable() {
    let mut translator = Translator::new();
    let id = rust();

    translator.record_respawn_failure(&id, START);
    translator.record_respawn_success(&id, START);
    assert!(
        translator.has_respawn_record(&id),
        "a recorded success must still leave a backoff entry pending reconciliation"
    );

    translator.reconcile_respawn_stability(&id, START + RESPAWN_BACKOFF_BASE);

    assert!(
        !translator.has_respawn_record(&id),
        "once proven stable, the backoff entry must be cleared entirely"
    );
}

#[test]
fn test_is_server_dead_false_when_not_registered() {
    assert!(!is_server_dead(None));
}

#[test]
fn a_server_is_live_until_its_exit_is_known() {
    assert!(is_live(true, None));
    assert!(is_live(true, Some(false)));
    assert!(!is_live(true, Some(true)));
    assert!(!is_live(false, Some(false)));
    assert_eq!(
        registered_live_client_ids(&vec![
            (ServerId::from("a"), Some(true)),
            (ServerId::from("b"), None),
            (ServerId::from("c"), Some(false)),
        ]),
        vec![ServerId::from("b"), ServerId::from("c")]
    );
}

#[test]
fn test_a_server_absent_from_the_applicable_set_is_not_started() {
    let mut translator = Translator::new();
    let id = rust();
    let next = translator.ensure_server(&id, false, START);
    assert!(matches!(next, Ensure::Fail(Error::ServerUnavailable { .. })));
    assert_eq!(translator.lifecycle_of(&id), None);
}

#[test]
fn test_a_translator_with_no_self_handle_cannot_spawn() {
    let mut translator = idle();
    let id = rust();
    assert_eq!(translator.ensure_server(&id, false, START), Ensure::Claimed);
    let next = translator.ensure_claimed(&id, false, false, START);
    let Ensure::Fail(Error::ServerUnavailable { server_id, reason }) = next else {
        panic!("a translator that cannot spawn fails");
    };
    assert_eq!(server_id, "rust");
    assert_eq!(reason, "this translator cannot start a server");
    assert_eq!(translator.lifecycle_of(&id), Some(ServerLifecycle::Failed));
}

#[test]
fn test_a_missing_binary_state_is_reported_without_a_spawn() {
    let mut translator = Translator::new();
    let id = rust();
    translator.set_lifecycle(&id, ServerLifecycle::NotInstalled);
    let Ensure::Fail(Error::ServerUnavailable { reason, .. }) =
        translator.ensure_server(&id, false, START)
    else {
        panic!("a missing command is reported");
    };
    assert!(reason.contains("not found"), "{reason}");
}

#[test]
fn test_ensure_server_noop_when_server_alive() {
    let mut translator = Translator::new();
    let id = rust();
    translator.set_lifecycle(&id, ServerLifecycle::Running);
    assert_eq!(translator.ensure_server(&id, true, START), Ensure::Ready);
}

#[test]
fn test_ensure_server_single_flights_concurrent_callers() {
    let mut translator = idle();
    let id = rust();
    assert_eq!(translator.ensure_server(&id, false, START), Ensure::Claimed);
    assert_eq!(translator.ensure_server(&id, false, START), Ensure::Wait);
    assert_eq!(
        translator.ensure_claimed(&id, false, true, START),
        Ensure::Spawn
    );
    assert_eq!(
        translator.end_spawn(&id, SpawnOutcome::Installed, START),
        SpawnNext::Ended
    );
    assert_eq!(translator.lifecycle_of(&id), Some(ServerLifecycle::Running));
}

#[test]
fn test_ensure_server_rechecks_a_live_server_after_claim() {
    let mut translator = idle();
    let id = rust();
    assert_eq!(translator.ensure_server(&id, false, START), Ensure::Claimed);
    assert_eq!(
        translator.ensure_claimed(&id, true, true, START),
        Ensure::Ready
    );
    assert_eq!(translator.lifecycle_of(&id), Some(ServerLifecycle::Running));
}

#[test]
fn test_ensure_server_backs_off_after_repeated_failure() {
    let mut translator = idle();
    let id = rust();
    assert_eq!(translator.ensure_server(&id, false, START), Ensure::Claimed);
    assert_eq!(
        translator.ensure_claimed(&id, false, true, START),
        Ensure::Spawn
    );
    translator.end_spawn(&id, SpawnOutcome::Failed, START);
    assert_eq!(translator.lifecycle_of(&id), Some(ServerLifecycle::Failed));

    let Ensure::Fail(Error::ServerUnavailable { reason, .. }) =
        translator.ensure_server(&id, false, START)
    else {
        panic!("a server that just failed is not spawned again at once");
    };
    assert_eq!(reason, "crash-looping, retry in 1s");
}

#[test]
fn test_ensure_server_backs_off_after_quick_recrash_following_success() {
    let mut translator = idle();
    let id = rust();
    translator.ensure_server(&id, false, START);
    translator.ensure_claimed(&id, false, true, START);
    translator.end_spawn(&id, SpawnOutcome::Installed, START);

    let soon = START + RESPAWN_BACKOFF_BASE / 2;
    assert!(
        matches!(
            translator.ensure_server(&id, false, soon),
            Ensure::Fail(Error::ServerUnavailable { .. })
        ),
        "a server that died at once counts as a failure"
    );
}

#[test]
fn the_delay_doubles_up_to_its_bound() {
    let mut translator = Translator::new();
    let id = rust();
    let second = 1_000_000_000;
    for expected in [1, 2, 4, 8, 16, 30, 30] {
        translator.record_respawn_failure(&id, START);
        assert_eq!(
            translator.respawn_backoff_remaining(&id, START),
            Some(expected * second)
        );
    }
    translator.clear_respawn_backoff(&id);
    assert_eq!(translator.respawn_backoff_remaining(&id, START), None);
}

#[test]
fn a_user_who_stops_a_server_retires_what_was_spawned() {
    let mut translator = idle();
    let id = rust();
    translator.ensure_server(&id, false, START);
    translator.ensure_claimed(&id, false, true, START);
    translator.set_lifecycle(&id, ServerLifecycle::Stopped);
    assert_eq!(
        translator.end_spawn(&id, SpawnOutcome::Installed, START),
        SpawnNext::Retire
    );
    assert_eq!(translator.lifecycle_of(&id), Some(ServerLifecycle::Stopped));
}

#[test]
fn a_missing_command_is_not_a_crash() {
    let mut translator = idle();
    let id = rust();
    translator.ensure_server(&id, false, START);
    translator.ensure_claimed(&id, false, true, START);
    translator.end_spawn(&id, SpawnOutcome::MissingBinary, START);
    assert_eq!(
        translator.lifecycle_of(&id),
        Some(ServerLifecycle::NotInstalled)
    );
}

#[test]
fn a_wait_ends_with_the_state_or_with_the_budget() {
    let id = rust();
    assert_eq!(
        await_terminal_state(&id, ServerLifecycle::Running, false),
        Some(Ok(()))
    );
    assert_eq!(
        await_terminal_state(&id, ServerLifecycle::Starting, false),
        None
    );
    assert_eq!(
        await_terminal_state(&id, ServerLifecycle::Starting, true),
        Some(Err(Error::ServerInitializing {
            server_id: "rust".to_string()
        }))
    );
    let Some(Err(Error::ServerUnavailable { reason, .. })) =
        await_terminal_state(&id, ServerLifecycle::NotInstalled, false)
    else {
        panic!("a missing command ends the wait");
    };
    assert_eq!(reason, "command not found");
    let Some(Err(Error::ServerUnavailable { reason, .. })) =
        await_terminal_state(&id, ServerLifecycle::Failed, false)
    else {
        panic!("a failure ends the wait");
    };
    assert_eq!(reason, "failed to start");
}

#[test]
fn test_ensure_server_clears_diagnostics_cache_when_diagnostics_route() {
    let setting = |caches_diagnostics| InstallSetting {
        caches_diagnostics,
        has_pumps: true,
        has_cache: true,
        has_client: true,
    };
    let steps = install_spawned(setting(true), true, true);
    assert!(steps.contains(&InstallStep::ClearDiagnostics));
    let steps = install_spawned(setting(false), true, true);
    assert!(!steps.contains(&InstallStep::ClearDiagnostics));
}

#[test]
fn test_ensure_server_clears_that_server_s_watch_registrations() {
    let steps = install_server(InstallSetting {
        caches_diagnostics: false,
        has_pumps: false,
        has_cache: false,
        has_client: false,
    });
    assert!(steps.contains(&InstallStep::ForgetWatches));
    assert!(steps.contains(&InstallStep::Spawn));
}

/// Claim a spawn of an idle or dead server.
fn claim(translator: &mut Translator, now: u64) {
    let id = rust();
    assert_eq!(translator.ensure_server(&id, false, now), Ensure::Claimed);
    assert_eq!(
        translator.ensure_claimed(&id, false, true, now),
        Ensure::Spawn
    );
}

#[test]
fn test_a_spawn_that_ends_without_publishing_lands_on_failed() {
    let mut translator = idle();
    claim(&mut translator, START);
    let next = translator.end_spawn(&rust(), SpawnOutcome::Failed, START);
    assert_eq!(next, SpawnNext::Ended);
    assert_eq!(
        translator.lifecycle_of(&rust()),
        Some(ServerLifecycle::Failed)
    );
}

#[test]
fn test_a_budget_that_expires_leaves_the_spawn_running() {
    let mut translator = idle();
    claim(&mut translator, START);
    let state = translator.lifecycle_of(&rust()).unwrap();
    assert!(matches!(
        await_terminal_state(&rust(), state, true),
        Some(Err(Error::ServerInitializing { .. }))
    ));
    assert_eq!(state, ServerLifecycle::Starting);
    assert_eq!(
        translator.ensure_server(&rust(), false, START),
        Ensure::Wait,
        "one spawn at a time"
    );
    translator.end_spawn(&rust(), SpawnOutcome::Installed, START);
    assert_eq!(
        translator.lifecycle_of(&rust()),
        Some(ServerLifecycle::Running)
    );
}

#[test]
fn test_ensure_server_errors_when_no_config_registered() {
    let mut translator = idle();
    claim(&mut translator, START);
    translator.end_spawn(&rust(), SpawnOutcome::Failed, START);
    let state = translator.lifecycle_of(&rust()).unwrap();
    assert!(matches!(
        await_terminal_state(&rust(), state, false),
        Some(Err(Error::ServerUnavailable { .. }))
    ));
}

#[test]
fn test_ensure_server_reports_a_missing_command_as_not_installed() {
    let mut translator = Translator::new();
    translator.set_lifecycle(&rust(), ServerLifecycle::Running);
    claim(&mut translator, START);
    translator.end_spawn(&rust(), SpawnOutcome::MissingBinary, START);
    let state = translator.lifecycle_of(&rust()).unwrap();
    assert!(matches!(
        await_terminal_state(&rust(), state, false),
        Some(Err(Error::ServerUnavailable { .. }))
    ));
    assert_eq!(state, ServerLifecycle::NotInstalled);
}

#[test]
fn test_ensure_server_without_budget_returns_before_spawn_finishes() {
    let mut translator = idle();
    claim(&mut translator, START);
    assert_eq!(
        translator.lifecycle_of(&rust()),
        Some(ServerLifecycle::Starting)
    );
    translator.end_spawn(&rust(), SpawnOutcome::Installed, START);
    assert_eq!(
        translator.lifecycle_of(&rust()),
        Some(ServerLifecycle::Running)
    );
}

#[test]
fn test_ensure_server_reattempts_once_backoff_window_elapses() {
    let mut translator = idle();
    claim(&mut translator, START);
    translator.end_spawn(&rust(), SpawnOutcome::Failed, START);

    let within = translator.ensure_server(&rust(), false, START);
    assert!(
        matches!(within, Ensure::Fail(Error::ServerUnavailable { .. })),
        "a call within the backoff window fails fast, got {within:?}"
    );

    claim(&mut translator, START + RESPAWN_BACKOFF_MAX);
    translator.end_spawn(
        &rust(),
        SpawnOutcome::Installed,
        START + RESPAWN_BACKOFF_MAX,
    );
    let state = translator.lifecycle_of(&rust()).unwrap();
    assert_eq!(
        await_terminal_state(&rust(), state, false),
        Some(Ok(())),
        "once the backoff window has elapsed, the server is started again"
    );
}

#[test]
fn test_ensure_server_does_not_clear_cache_when_not_diagnostics_route() {
    let setting = InstallSetting {
        caches_diagnostics: false,
        has_pumps: true,
        has_cache: true,
        has_client: true,
    };
    let steps = install_spawned(setting, true, false);
    assert!(!steps.contains(&InstallStep::ClearDiagnostics));
    assert!(steps.contains(&InstallStep::Register));
}

#[test]
fn a_begun_merge_is_run_once_the_server_is_installed() {
    let setting = |caches_diagnostics, has_pumps| InstallSetting {
        caches_diagnostics,
        has_pumps,
        has_cache: true,
        has_client: false,
    };
    assert_eq!(merge_after_install(setting(true, true), Some(3)), Some(3));
    assert_eq!(merge_after_install(setting(true, true), None), None);
    assert_eq!(merge_after_install(setting(false, true), Some(3)), None);
    assert_eq!(merge_after_install(setting(true, false), Some(3)), None);
}
