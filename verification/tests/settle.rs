use mcpls_core::config::ServerId;
use mcpls_core::settle::{ServerSettle, NO_PROGRESS_GRACE};

/// An arbitrary moment, in nanoseconds.
const START: u64 = 1_000_000_000_000;

const SECOND: u64 = 1_000_000_000;

const MILLISECOND: u64 = 1_000_000;

/// A progress token as its JSON text.
fn token(name: &str) -> String {
    format!("\"{name}\"")
}

fn settle() -> ServerSettle {
    ServerSettle::new(SECOND, 600 * SECOND, START)
}

#[test]
fn test_settle_retirement_preserves_other_server_and_epoch() {
    let mut settle = settle();
    let rust = ServerId::from("rust");
    let python = ServerId::from("python");
    settle.begin(&rust, &token("check"));
    settle.begin(&python, &token("check"));
    settle.forget_server(&rust, START);
    assert!(!settle.is_quiet_at(
        START + 2 * SECOND,
        1 * SECOND
    ));
    assert_eq!(settle.progress_epoch(), 2);
    settle.end_at(&python, &token("check"), START);
    assert!(settle.should_settle_at(START + 2 * SECOND));
    settle.begin(&rust, &token("replacement"));
    settle.forget_server(&rust, START);
    assert!(settle.should_settle_at(START + 2 * SECOND));
    assert_eq!(settle.progress_epoch(), 3);
}

#[test]
fn test_a_server_with_work_outstanding_is_not_quiet() {
    let mut settle = settle();
    let rust = ServerId::from("rust");
    settle.begin(&rust, &token("rustAnalyzer/cachePriming"));
    assert!(!settle.should_settle_at(START + 5 * SECOND));
}

#[test]
fn test_quiet_must_outlast_the_gap_between_two_startup_phases() {
    let mut settle = settle();
    let rust = ServerId::from("rust");
    settle.begin(&rust, &token("rustAnalyzer/Fetching"));
    settle.end_at(&rust, &token("rustAnalyzer/Fetching"), START);
    let quiet_began = START;

    assert!(
        !settle.should_settle_at(quiet_began + 100 * MILLISECOND),
        "rust-analyzer hands off between startup phases in about this long, \
         and indexing has not started yet"
    );
    assert!(settle.should_settle_at(quiet_began + 2 * SECOND));
}

#[test]
fn test_work_resuming_restarts_the_quiet_period() {
    let mut settle = settle();
    let rust = ServerId::from("rust");
    settle.begin(&rust, &token("rustAnalyzer/Indexing"));
    settle.end_at(&rust, &token("rustAnalyzer/Indexing"), START);
    settle.begin(&rust, &token("rust-analyzer/flycheck/0"));
    assert!(!settle.should_settle_at(START + 5 * SECOND));
}

#[test]
fn test_a_second_quiet_period_restarts_the_clock_from_its_own_end() {
    let quiet_for = 50 * MILLISECOND;
    let mut settle = ServerSettle::new(quiet_for, 600 * SECOND, START);
    let rust = ServerId::from("rust");

    settle.begin(&rust, &token("rustAnalyzer/Indexing"));
    let first_quiet_began = START;
    settle.end_at(&rust, &token("rustAnalyzer/Indexing"), first_quiet_began);

    settle.begin(&rust, &token("rust-analyzer/flycheck/0"));
    let second_quiet_began = first_quiet_began + quiet_for * 3;
    settle.end_at(&rust, &token("rust-analyzer/flycheck/0"), second_quiet_began);

    assert!(
        !settle.should_settle_at(second_quiet_began),
        "the clock must restart from the second quiet period, not the first"
    );
    assert!(settle.should_settle_at(second_quiet_began + quiet_for * 2));
}

#[test]
fn test_two_servers_sharing_a_token_string_are_tracked_independently() {
    let mut settle = settle();
    let rust = ServerId::from("rust");
    let python = ServerId::from("python");
    settle.begin(&rust, &token("indexing"));
    settle.begin(&python, &token("indexing"));
    settle.end_at(&rust, &token("indexing"), START);
    assert!(
        !settle.should_settle_at(START + 5 * SECOND),
        "python's identically-named token is still outstanding"
    );
}

#[test]
fn test_every_server_must_be_quiet_at_once() {
    let mut settle = settle();
    let rust = ServerId::from("rust");
    let python = ServerId::from("python");
    settle.begin(&rust, &token("indexing"));
    settle.begin(&python, &token("analyzing"));
    settle.end_at(&rust, &token("indexing"), START);

    assert!(!settle.should_settle_at(START + 5 * SECOND));
    settle.end_at(&python, &token("analyzing"), START);
    assert!(settle.should_settle_at(START + 5 * SECOND));
}

#[test]
fn test_an_end_without_a_begin_does_not_start_a_quiet_period() {
    let mut settle = settle();
    settle.end_at(&ServerId::from("rust"), &token("orphan"), START);
    assert!(
        !settle.should_settle_at(START + 5 * SECOND),
        "an unmatched end proves nothing about what is still running"
    );
}

#[test]
fn test_a_tracker_whose_deadline_was_never_restarted_settles_only_at_the_deadline() {
    let mut settle = ServerSettle::new(1 * SECOND, 60 * SECOND, START);
    assert!(!settle.should_settle_at(START + 30 * SECOND));
    assert!(
        settle.should_settle_at(START + 61 * SECOND),
        "a baseline taken late beats never reporting anything as new"
    );
}

#[test]
fn test_the_deadline_fires_even_with_work_still_outstanding() {
    let mut settle = ServerSettle::new(1 * SECOND, 60 * SECOND, START);
    settle.begin(&ServerId::from("rust"), &token("stuck"));
    assert!(settle.should_settle_at(START + 61 * SECOND));
}

#[test]
fn test_restarting_the_deadline_spends_none_of_it_on_startup() {
    let deadline_after = 60 * SECOND;
    let mut settle = ServerSettle::new(1 * SECOND, deadline_after, START);
    // Whatever ran between construction and the servers existing: config
    // load, then every server's `initialize` handshake.
    let servers_ready = START + deadline_after;
    settle.begin(&ServerId::from("rust"), &token("rustAnalyzer/Indexing"));

    assert!(
        settle.should_settle_at(servers_ready),
        "the original deadline is measured from construction and is spent by now"
    );

    settle.restart_deadline(START);
    let restarted = START;

    assert!(
        !settle.should_settle_at(restarted + deadline_after / 2),
        "indexing must still get the full deadline after the restart"
    );
    assert!(settle.should_settle_at(restarted + deadline_after * 2));
}

#[test]
fn test_restarting_the_deadline_keeps_a_reached_quiet_period() {
    let quiet_for = 10 * MILLISECOND;
    let mut settle = ServerSettle::new(quiet_for, 60 * SECOND, START);
    let rust = ServerId::from("rust");
    settle.begin(&rust, &token("rustAnalyzer/Indexing"));
    settle.end_at(&rust, &token("rustAnalyzer/Indexing"), START);
    let quiet_began = START;

    settle.restart_deadline(START);

    assert!(
        settle.should_settle_at(quiet_began + quiet_for * 2),
        "the restart moves the backstop, not the debounce"
    );
}

#[test]
fn test_restart_deadline_rescues_a_server_that_never_reports_progress() {
    // A short `quiet_for` here, so that if a regression makes this
    // settle via the ordinary debounce instead of `NO_PROGRESS_GRACE`,
    // the first assertion below (querying well past `quiet_for` but
    // still short of the grace) catches it rather than passing
    // vacuously.
    let mut settle = ServerSettle::new(1 * MILLISECOND, 600 * SECOND, START);
    settle.restart_deadline(START);
    let restarted = START;

    assert!(
        !settle.should_settle_at(restarted + NO_PROGRESS_GRACE / 2),
        "a server that has not spoken yet gets the full no-progress \
         grace before its silence counts as having nothing to report"
    );
    assert!(
        settle.should_settle_at(restarted + NO_PROGRESS_GRACE),
        "a server that never reports progress must settle on the \
         no-progress grace once the servers are spawned, not wait for \
         the five-minute backstop"
    );
}

#[test]
fn test_a_begin_inside_the_grace_stops_the_no_progress_settlement() {
    let mut settle = ServerSettle::new(1 * SECOND, 600 * SECOND, START);
    settle.restart_deadline(START);
    let restarted = START;
    settle.begin(&ServerId::from("rust"), &token("rustAnalyzer/Fetching"));

    assert!(
        !settle.should_settle_at(restarted + NO_PROGRESS_GRACE * 2),
        "a begin arriving inside the grace clears the provisional \
         stamp; a server that spoke late must not be baselined empty \
         just because the grace window would otherwise have elapsed"
    );
}

#[test]
fn test_a_begin_before_the_grace_elapses_switches_to_the_normal_debounce() {
    let quiet_for = 10 * MILLISECOND;
    let mut settle = ServerSettle::new(quiet_for, 600 * SECOND, START);
    settle.restart_deadline(START);
    let rust = ServerId::from("rust");

    // A server that speaks up before the no-progress grace elapses is
    // no longer judged by the grace at all from here on: it gets the
    // ordinary, much shorter quiet debounce once its own work ends.
    settle.begin(&rust, &token("rustAnalyzer/Fetching"));
    let end_at = START;
    settle.end_at(&rust, &token("rustAnalyzer/Fetching"), end_at);

    assert!(
        !settle.should_settle_at(end_at + quiet_for / 2),
        "a real end still needs its own quiet debounce to elapse"
    );
    assert!(
        settle.should_settle_at(end_at + quiet_for * 2),
        "once real progress has begun and ended, the ordinary quiet \
         debounce governs, not the no-progress grace -- this must \
         settle well before the grace would elapse, not wait for it"
    );
}

#[test]
fn test_footer_quiet_holds_for_a_workspace_that_never_reported_progress() {
    let mut settle = ServerSettle::new(1 * SECOND, 600 * SECOND, START);
    let now = START;

    assert!(
        !settle.should_settle_at(now),
        "the baseline's judgment waits for a first end, because a workspace \
         that has said nothing yet may simply not have started"
    );
    assert!(
        settle.is_quiet_at(now, 200 * MILLISECOND),
        "the footer's does not: it runs after its own grace period, and a \
         server that reports no progress at all would otherwise burn the \
         whole cap on every write"
    );
}

#[test]
fn test_footer_quiet_waits_while_work_is_outstanding() {
    let mut settle = ServerSettle::new(1 * SECOND, 600 * SECOND, START);
    let now = START;
    settle.begin(&ServerId::from("rust"), &token("flycheck"));

    assert!(!settle.is_quiet_at(now + 30 * SECOND, 200 * MILLISECOND));
}

#[test]
fn test_footer_quiet_needs_its_own_debounce_after_the_last_end() {
    let mut settle = ServerSettle::new(1 * SECOND, 600 * SECOND, START);
    let start = START;
    let rust = ServerId::from("rust");
    settle.begin(&rust, &token("flycheck"));
    settle.end_at(&rust, &token("flycheck"), start);

    assert!(!settle.is_quiet_at(
        start + 100 * MILLISECOND,
        200 * MILLISECOND
    ));
    assert!(settle.is_quiet_at(
        start + 300 * MILLISECOND,
        200 * MILLISECOND
    ));
}

#[test]
fn test_the_progress_epoch_moves_only_when_work_begins() {
    let mut settle = ServerSettle::new(1 * SECOND, 600 * SECOND, START);
    let rust = ServerId::from("rust");
    let before = settle.progress_epoch();

    settle.end_at(&rust, &token("orphan"), START);
    assert_eq!(
        settle.progress_epoch(),
        before,
        "an unmatched end is not new work; the footer uses this to tell an \
         index already in flight from a check its own save started"
    );

    settle.begin(&rust, &token("flycheck"));
    assert_eq!(settle.progress_epoch(), before + 1);
}

#[test]
fn i1_t5_owner_progress_uses_the_exact_quiet_boundary() {
    let quiet_for = 10 * MILLISECOND;
    let mut settle = ServerSettle::new(quiet_for, 60 * SECOND, START);
    let owner = ServerId::from("owner");
    settle.set_diagnostics_owners(vec![owner.clone()]);
    settle.restart_deadline(START);
    settle.begin(&owner, &token("indexing"));
    let quiet_started = START;
    settle.end_at(&owner, &token("indexing"), quiet_started);

    assert!(
        !settle.should_settle_at(
            quiet_started + quiet_for - 1
        )
    );
    assert!(settle.should_settle_at(quiet_started + quiet_for));
}

#[test]
fn i1_t5_pre_registration_progress_keeps_its_quiet_state() {
    let quiet_for = 10 * MILLISECOND;
    let mut settle = ServerSettle::new(quiet_for, 60 * SECOND, START);
    let owner = ServerId::from("owner");
    settle.begin(&owner, &token("indexing"));
    let quiet_started = START;
    settle.end_at(&owner, &token("indexing"), quiet_started);

    settle.set_diagnostics_owners(vec![owner]);
    settle.restart_deadline(START);

    assert!(!settle.should_settle_at(quiet_started + quiet_for / 2));
    assert!(settle.should_settle_at(quiet_started + quiet_for * 2));
}

#[test]
fn i1_t5_excluded_progress_does_not_delay_empty_owner_set() {
    let mut settle = ServerSettle::new(10 * MILLISECOND, 60 * SECOND, START);
    let excluded = ServerId::from("excluded");
    settle.begin(&excluded, &token("indexing"));
    settle.set_diagnostics_owners(vec![]);
    settle.restart_deadline(START);

    assert!(settle.should_settle_at(START));
}

#[test]
fn i1_t5_excluded_progress_does_not_delay_nonempty_owner_set() {
    let quiet_for = 10 * MILLISECOND;
    let mut settle = ServerSettle::new(quiet_for, 60 * SECOND, START);
    let owner = ServerId::from("owner");
    let excluded = ServerId::from("excluded");
    settle.begin(&owner, &token("indexing"));
    settle.begin(&excluded, &token("indexing"));
    let owner_quiet_started = START;
    settle.end_at(&owner, &token("indexing"), owner_quiet_started);
    settle.set_diagnostics_owners(vec![owner]);
    settle.restart_deadline(START);

    assert!(!settle.should_settle_at(owner_quiet_started + quiet_for / 2));
    assert!(settle.should_settle_at(owner_quiet_started + quiet_for));
}

#[test]
fn i1_t5_retiring_one_owner_preserves_another_owner() {
    let quiet_for = 10 * MILLISECOND;
    let mut settle = ServerSettle::new(quiet_for, 60 * SECOND, START);
    let rust = ServerId::from("rust");
    let python = ServerId::from("python");
    settle.set_diagnostics_owners(vec![rust.clone(), python.clone()]);
    settle.restart_deadline(START);
    settle.begin(&rust, &token("indexing"));
    settle.begin(&python, &token("indexing"));
    let python_quiet_started = START;
    settle.end_at(&python, &token("indexing"), python_quiet_started);
    settle.forget_server(&rust, START);

    assert!(settle.should_settle_at(python_quiet_started + quiet_for * 2));
}

#[test]
fn a_replacement_is_waited_for_until_it_is_registered() {
    let quiet_for = 10 * MILLISECOND;
    let mut settle = ServerSettle::new(quiet_for, 60 * SECOND, START);
    let owner = ServerId::from("owner");
    settle.set_diagnostics_owners(vec![owner.clone()]);
    settle.restart_deadline(START);
    settle.begin(&owner, &token("indexing"));
    settle.end_at(&owner, &token("indexing"), START);
    assert!(settle.should_settle_at(START + SECOND));

    settle.begin_diagnostics_replacement(&owner);
    assert!(!settle.should_settle_at(START + SECOND));
    settle.forget_server(&owner, START + SECOND);
    assert!(!settle.should_settle_at(START + 2 * SECOND));
    settle.register_diagnostics_owner(&owner, START + 2 * SECOND);
    assert!(!settle.should_settle_at(START + 2 * SECOND));
    assert!(settle.should_settle_at(START + 2 * SECOND + NO_PROGRESS_GRACE));
}

#[test]
fn a_late_owner_gets_its_own_grace() {
    let mut settle = ServerSettle::new(MILLISECOND, 600 * SECOND, START);
    let early = ServerId::from("early");
    let late = ServerId::from("late");
    settle.set_diagnostics_owners(vec![early.clone()]);
    settle.restart_deadline(START);
    settle.register_diagnostics_owner(&late, START + SECOND);
    assert!(!settle.should_settle_at(START + SECOND + NO_PROGRESS_GRACE - 1));
    assert!(settle.should_settle_at(START + SECOND + NO_PROGRESS_GRACE));
}
