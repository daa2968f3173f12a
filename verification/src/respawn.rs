//! Dead-server detection and respawn-backoff bookkeeping.
//!
//! Tracks consecutive respawn failures per server so a crash-looping process
//! backs off exponentially instead of being started again on every tool call
//! that arrives while it is down.

use crate::clock;
use crate::clock::{duration_since, Duration, Instant};
use crate::config::ServerId;
use crate::error::{Error, ErrorView};
use crate::lifecycle;
use crate::lifecycle::{ServerLifecycle, ServersView, Translator};
use crate::table::Key;
use vstd::prelude::*;
use vstd::string::*;

verus! {

/// How long a caller waits for a replacement before it is told to retry: 5 s.
pub const RESPAWN_WAIT: Duration = 5_000_000_000;

/// Delay before the first backed-off retry after a respawn failure: 1 s.
pub const RESPAWN_BACKOFF_BASE: Duration = 1_000_000_000;

/// Upper bound on the delay between respawn attempts: 30 s.
pub const RESPAWN_BACKOFF_MAX: Duration = 30_000_000_000;

/// What is remembered of one server's respawn attempts.
#[derive(Clone, Copy, Debug, PartialEq, Eq, Structural)]
pub struct RespawnBackoff {
    /// Number of consecutive attempts that have not produced a server which
    /// stayed alive for at least the base delay.
    pub consecutive_failures: u32,
    /// When the most recent attempt was made, or found not to have held up.
    pub last_attempt: Instant,
    /// Whether the most recent attempt started a server that is not known to
    /// have died too soon.
    pub last_attempt_succeeded: bool,
}

/// What a [`RespawnBackoff`] stands for.
pub type BackoffView = RespawnBackoff;

impl DeepView for RespawnBackoff {
    type V = RespawnBackoff;

    open spec fn deep_view(&self) -> RespawnBackoff {
        *self
    }
}

/// The words that std's `Debug` has for a duration.
pub uninterp spec fn duration_text(nanoseconds: Duration) -> Seq<char>;

/// A duration in words.
///
/// Calls `std::time::Duration::from_nanos` and its `Debug`. The contract claims
/// that the text is a function of the duration; which text it is, std does not
/// promise.
#[verifier::external_body]
fn duration_words(nanoseconds: Duration) -> (r: String)
    ensures
        r@ == duration_text(nanoseconds),
{
    format!("{:?}", std::time::Duration::from_nanos(nanoseconds))
}

/// Two to the power of `n`.
pub open spec fn doubled(n: nat) -> nat
    decreases n,
{
    if n == 0 {
        1
    } else {
        2 * doubled((n - 1) as nat)
    }
}

/// The delay after `failures` failures in a row: the base, doubled with every
/// failure after the first, up to the bound.
pub open spec fn delay_after(failures: nat) -> Duration {
    let steps = if failures <= 1 {
        0
    } else if failures > 6 {
        5
    } else {
        (failures - 1) as nat
    };
    let delay = RESPAWN_BACKOFF_BASE * doubled(steps);
    if delay > RESPAWN_BACKOFF_MAX {
        RESPAWN_BACKOFF_MAX
    } else {
        delay as Duration
    }
}

/// How long a server must still be left alone.
pub open spec fn backoff_left(v: ServersView, id: Seq<char>, now: Instant) -> Option<Duration> {
    if !v.backoffs.dom().contains(id) || v.backoffs[id].consecutive_failures == 0 {
        None
    } else {
        let delay = delay_after(v.backoffs[id].consecutive_failures as nat);
        let elapsed = clock::elapsed(now, v.backoffs[id].last_attempt);
        if elapsed < delay {
            Some((delay - elapsed) as Duration)
        } else {
            None
        }
    }
}

/// A counter that stays at its end.
pub open spec fn one_more(n: u32) -> u32 {
    if n == u32::MAX {
        n
    } else {
        (n + 1) as u32
    }
}

/// How many attempts in a row have failed.
pub open spec fn failures_of(v: ServersView, id: Seq<char>) -> u32 {
    if v.backoffs.dom().contains(id) {
        v.backoffs[id].consecutive_failures
    } else {
        0
    }
}

/// One failed attempt more.
pub open spec fn with_failure(v: ServersView, id: Seq<char>, now: Instant) -> ServersView {
    ServersView {
        backoffs: v.backoffs.insert(
            id,
            RespawnBackoff {
                consecutive_failures: one_more(failures_of(v, id)),
                last_attempt: now,
                last_attempt_succeeded: false,
            },
        ),
        ..v
    }
}

/// An attempt that started a server.
pub open spec fn with_success(v: ServersView, id: Seq<char>, now: Instant) -> ServersView {
    ServersView {
        backoffs: v.backoffs.insert(
            id,
            RespawnBackoff {
                consecutive_failures: failures_of(v, id),
                last_attempt: now,
                last_attempt_succeeded: true,
            },
        ),
        ..v
    }
}

/// What is remembered once a server was found dead: a success that held up for
/// the base delay clears the memory, one that did not counts as a failure.
pub open spec fn reconciled(v: ServersView, id: Seq<char>, now: Instant) -> ServersView {
    if !v.backoffs.dom().contains(id) || !v.backoffs[id].last_attempt_succeeded {
        v
    } else if clock::elapsed(now, v.backoffs[id].last_attempt) >= RESPAWN_BACKOFF_BASE {
        ServersView { backoffs: v.backoffs.remove(id), ..v }
    } else {
        with_failure(v, id, now)
    }
}

/// Nothing remembered of a server's attempts.
pub open spec fn without_backoff(v: ServersView, id: Seq<char>) -> ServersView {
    ServersView { backoffs: v.backoffs.remove(id), ..v }
}

/// A server that is not to be had.
pub open spec fn unavailable(id: Seq<char>, reason: Seq<char>) -> ErrorView {
    ErrorView::ServerUnavailable { server_id: id, reason }
}

/// A server that keeps crashing.
pub open spec fn crash_looping(id: Seq<char>, left: Duration) -> ErrorView {
    unavailable(id, "crash-looping, retry in "@ + duration_text(left))
}

/// What a caller that needs a server does.
#[derive(Clone, Debug, PartialEq, Eq)]
pub enum Ensure {
    /// Go ahead: it is live.
    Ready,
    /// Give up, with this error.
    Fail(Error),
    /// Wait for the spawn that is in flight.
    Wait,
    /// Look once more whether it is live, now that its spawn is claimed.
    Claimed,
    /// Spawn it.
    Spawn,
}

/// What an [`Ensure`] stands for.
pub enum EnsureView {
    /// Go ahead: it is live.
    Ready,
    /// Give up, with this error.
    Fail(ErrorView),
    /// Wait for the spawn that is in flight.
    Wait,
    /// Look once more whether it is live, now that its spawn is claimed.
    Claimed,
    /// Spawn it.
    Spawn,
}

impl DeepView for Ensure {
    type V = EnsureView;

    open spec fn deep_view(&self) -> EnsureView {
        match self {
            Ensure::Ready => EnsureView::Ready,
            Ensure::Fail(e) => EnsureView::Fail(e.deep_view()),
            Ensure::Wait => EnsureView::Wait,
            Ensure::Claimed => EnsureView::Claimed,
            Ensure::Spawn => EnsureView::Spawn,
        }
    }
}

/// What a caller that needs a server does first, given whether the server is
/// live.
pub open spec fn ensured(v: ServersView, id: Seq<char>, live: bool, now: Instant) -> (
    ServersView,
    EnsureView,
) {
    if live {
        (v, EnsureView::Ready)
    } else if !v.states.dom().contains(id) {
        (v, EnsureView::Fail(unavailable(id, "not applicable to this workspace"@)))
    } else if lifecycle::is_in(v, id, ServerLifecycle::NotInstalled) {
        (v, EnsureView::Fail(unavailable(id, "command not found when it was last attempted"@)))
    } else {
        let w = reconciled(v, id, now);
        match backoff_left(w, id, now) {
            Some(left) => (w, EnsureView::Fail(crash_looping(id, left))),
            None => if lifecycle::claimable(w, id) {
                (lifecycle::claimed(w, id), EnsureView::Claimed)
            } else {
                (w, EnsureView::Wait)
            },
        }
    }
}

/// What a caller does that has claimed the spawn, given whether the server is
/// live after all and whether a process can be started at all.
pub open spec fn ensured_claimed(
    v: ServersView,
    id: Seq<char>,
    live: bool,
    can_spawn: bool,
    now: Instant,
) -> (ServersView, EnsureView) {
    if live {
        (lifecycle::finished(v, id, ServerLifecycle::Running), EnsureView::Ready)
    } else {
        let w = reconciled(v, id, now);
        match backoff_left(w, id, now) {
            Some(left) => (
                lifecycle::abandoned(w, id, ServerLifecycle::Failed),
                EnsureView::Fail(crash_looping(id, left)),
            ),
            None => if can_spawn {
                (w, EnsureView::Spawn)
            } else {
                (
                    lifecycle::abandoned(with_failure(w, id, now), id, ServerLifecycle::Failed),
                    EnsureView::Fail(unavailable(id, "this translator cannot start a server"@)),
                )
            },
        }
    }
}

/// What the wait for a server comes to in a state; nothing while it goes on.
pub open spec fn awaited(id: Seq<char>, state: ServerLifecycle, timed_out: bool) -> Option<
    Result<(), ErrorView>,
> {
    match state {
        ServerLifecycle::Running => Some(Ok(())),
        ServerLifecycle::NotInstalled => Some(Err(unavailable(id, "command not found"@))),
        ServerLifecycle::Failed => Some(Err(unavailable(id, "failed to start"@))),
        _ => if timed_out {
            Some(Err(ErrorView::ServerInitializing { server_id: id }))
        } else {
            None
        },
    }
}

/// How a spawn ended.
#[derive(Clone, Copy, Debug, PartialEq, Eq, Structural)]
pub enum SpawnOutcome {
    /// The server was installed.
    Installed,
    /// The command is not to be found.
    MissingBinary,
    /// Anything else failed.
    Failed,
}

/// What follows the end of a spawn.
#[derive(Clone, Copy, Debug, PartialEq, Eq, Structural)]
pub enum SpawnNext {
    /// Nothing: the outcome is recorded.
    Ended,
    /// A user stopped the server meanwhile: retire what was installed.
    Retire,
}

/// The end of a spawn.
pub open spec fn spawn_ended(
    v: ServersView,
    id: Seq<char>,
    outcome: SpawnOutcome,
    now: Instant,
) -> (ServersView, SpawnNext) {
    match outcome {
        SpawnOutcome::Installed => (
            lifecycle::finished(with_success(v, id, now), id, ServerLifecycle::Running),
            if lifecycle::is_in(v, id, ServerLifecycle::Stopped) {
                SpawnNext::Retire
            } else {
                SpawnNext::Ended
            },
        ),
        SpawnOutcome::MissingBinary => (
            lifecycle::abandoned(with_failure(v, id, now), id, ServerLifecycle::NotInstalled),
            SpawnNext::Ended,
        ),
        SpawnOutcome::Failed => (
            lifecycle::abandoned(with_failure(v, id, now), id, ServerLifecycle::Failed),
            SpawnNext::Ended,
        ),
    }
}

fn delay_for(failures: u32) -> (r: Duration)
    ensures
        r == delay_after(failures as nat),
{
    proof {
        reveal_with_fuel(doubled, 6);
    }
    let delay: Duration = if failures <= 1 {
        RESPAWN_BACKOFF_BASE
    } else if failures == 2 {
        RESPAWN_BACKOFF_BASE * 2
    } else if failures == 3 {
        RESPAWN_BACKOFF_BASE * 4
    } else if failures == 4 {
        RESPAWN_BACKOFF_BASE * 8
    } else if failures == 5 {
        RESPAWN_BACKOFF_BASE * 16
    } else {
        RESPAWN_BACKOFF_BASE * 32
    };
    if delay > RESPAWN_BACKOFF_MAX {
        RESPAWN_BACKOFF_MAX
    } else {
        delay
    }
}

/// Whether a look at a server's process found that it had exited.
pub open spec fn known_dead(exited: Option<bool>) -> bool {
    exited == Some(true)
}

/// Whether a registered server is known to have exited. A server that is not
/// registered is not dead, and neither is one whose health check failed.
pub fn is_server_dead(exited: Option<bool>) -> (r: bool)
    ensures
        r == (exited == Some(true)),
        r == known_dead(exited),
{
    match exited {
        Some(exited) => exited,
        None => false,
    }
}

/// Whether a registered client still has its process. Registration publishes
/// the client immediately before the server, and a health check that itself
/// failed does not count as a death.
pub fn is_live(has_client: bool, exited: Option<bool>) -> (r: bool)
    ensures
        r == (has_client && exited != Some(true)),
        r == (has_client && !known_dead(exited)),
{
    has_client && !is_server_dead(exited)
}

/// Whether a registered client counts as live.
pub open spec fn counts_as_live(client: (Seq<char>, Option<bool>)) -> bool {
    client.1 != Some(true)
}

/// The live ones among the registered clients, each of which comes with what a
/// look at its process said.
pub open spec fn live_ids(clients: Seq<(Seq<char>, Option<bool>)>) -> Seq<Seq<char>> {
    clients.filter(|c: (Seq<char>, Option<bool>)| counts_as_live(c)).map_values(
        |c: (Seq<char>, Option<bool>)| c.0,
    )
}

/// The live ones among the registered clients.
pub fn registered_live_client_ids(clients: &Vec<(ServerId, Option<bool>)>) -> (r: Vec<ServerId>)
    ensures
        r.deep_view() == live_ids(clients.deep_view()),
{
    let ghost all = clients.deep_view();
    let mut r: Vec<ServerId> = Vec::new();
    let mut i: usize = 0;
    proof {
        reveal(Seq::filter);
        assert(r.deep_view() =~= live_ids(all.take(0)));
    }
    while i < clients.len()
        invariant
            i <= clients.len(),
            all == clients.deep_view(),
            r.deep_view() == live_ids(all.take(i as int)),
        decreases clients.len() - i,
    {
        let ghost before = r.deep_view();
        proof {
            let next = all.take(i + 1);
            assert(next.drop_last() =~= all.take(i as int));
            assert(next.last() == all[i as int]);
            reveal(Seq::filter);
        }
        if is_live(true, clients[i].1) {
            r.push(clients[i].0.dup());
            assert(r.deep_view() =~= before.push(all[i as int].0));
        }
        i = i + 1;
        assert(r.deep_view() =~= live_ids(all.take(i as int)));
    }
    assert(all.take(i as int) =~= all);
    r
}

fn unavailable_error(id: &ServerId, reason: String) -> (r: Error)
    ensures
        r.deep_view() == unavailable(id@, reason@),
{
    Error::ServerUnavailable { server_id: id.name.clone(), reason }
}

fn crash_looping_error(id: &ServerId, left: Duration) -> (r: Error)
    ensures
        r.deep_view() == crash_looping(id@, left),
{
    let mut reason = "crash-looping, retry in ".to_owned();
    reason.append(duration_words(left).as_str());
    unavailable_error(id, reason)
}

impl Translator {
    /// Whether an attempt to respawn `id` is on record.
    pub fn has_respawn_record(&self, id: &ServerId) -> (r: bool)
        ensures
            r == self@.backoffs.dom().contains(id@),
    {
        self.respawn_backoffs.has(id)
    }

    /// Remaining delay before `id` may be respawned again, or `None` if it may
    /// be attempted right now. A server with no recorded failure is never
    /// backed off.
    pub fn respawn_backoff_remaining(&self, id: &ServerId, now: Instant) -> (r: Option<Duration>)
        ensures
            r == backoff_left(self@, id@, now),
    {
        match self.respawn_backoffs.get(id) {
            None => None,
            Some(entry) => {
                if entry.consecutive_failures == 0 {
                    return None;
                }
                let delay: Duration = delay_for(entry.consecutive_failures);
                let elapsed: Duration = duration_since(now, entry.last_attempt);
                if elapsed < delay {
                    Some(delay - elapsed)
                } else {
                    None
                }
            },
        }
    }

    fn failures(&self, id: &ServerId) -> (r: u32)
        ensures
            r == failures_of(self@, id@),
    {
        match self.respawn_backoffs.get(id) {
            Some(entry) => entry.consecutive_failures,
            None => 0,
        }
    }

    /// Record a failed respawn attempt for `id`, extending its backoff.
    pub fn record_respawn_failure(&mut self, id: &ServerId, now: Instant)
        ensures
            final(self)@ == with_failure(old(self)@, id@, now),
    {
        let failures: u32 = self.failures(id);
        let entry = RespawnBackoff {
            consecutive_failures: if failures == u32::MAX {
                failures
            } else {
                failures + 1
            },
            last_attempt: now,
            last_attempt_succeeded: false,
        };
        self.respawn_backoffs.put(id.dup(), entry);
    }

    /// Record that a respawn attempt for `id` started a server.
    ///
    /// Does not clear the failures: whether this attempt broke the crash loop
    /// is only known once the server stays alive for a while or is found dead
    /// again.
    pub fn record_respawn_success(&mut self, id: &ServerId, now: Instant)
        ensures
            final(self)@ == with_success(old(self)@, id@, now),
    {
        let failures: u32 = self.failures(id);
        let entry = RespawnBackoff {
            consecutive_failures: failures,
            last_attempt: now,
            last_attempt_succeeded: true,
        };
        self.respawn_backoffs.put(id.dup(), entry);
    }

    /// Settle `id`'s backoff against a newly observed death, before deciding
    /// whether to back off.
    pub fn reconcile_respawn_stability(&mut self, id: &ServerId, now: Instant)
        ensures
            final(self)@ == reconciled(old(self)@, id@, now),
    {
        let entry = match self.respawn_backoffs.get(id) {
            Some(entry) => *entry,
            None => {
                return;
            },
        };
        if !entry.last_attempt_succeeded {
            return;
        }
        if duration_since(now, entry.last_attempt) >= RESPAWN_BACKOFF_BASE {
            let _ = self.respawn_backoffs.take(id);
        } else {
            self.record_respawn_failure(id, now);
        }
    }

    /// Forget `id`'s respawn attempts.
    pub fn clear_respawn_backoff(&mut self, id: &ServerId)
        ensures
            final(self)@ == without_backoff(old(self)@, id@),
    {
        let _ = self.respawn_backoffs.take(id);
    }

    /// Begin to start `id` when it has no live client.
    pub fn ensure_server(&mut self, id: &ServerId, live: bool, now: Instant) -> (r: Ensure)
        ensures
            (final(self)@, r.deep_view()) == ensured(old(self)@, id@, live, now),
    {
        if live {
            return Ensure::Ready;
        }
        match self.lifecycle_of(id) {
            None => {
                return Ensure::Fail(
                    unavailable_error(id, "not applicable to this workspace".to_owned()),
                );
            },
            Some(ServerLifecycle::NotInstalled) => {
                return Ensure::Fail(
                    unavailable_error(
                        id,
                        "command not found when it was last attempted".to_owned(),
                    ),
                );
            },
            Some(_) => {},
        }
        self.reconcile_respawn_stability(id, now);
        if let Some(left) = self.respawn_backoff_remaining(id, now) {
            return Ensure::Fail(crash_looping_error(id, left));
        }
        if self.begin_starting(id) {
            Ensure::Claimed
        } else {
            Ensure::Wait
        }
    }

    /// Go on to start `id`, whose spawn this caller has claimed.
    ///
    /// A caller can read `Starting` while the active spawn finishes, then claim
    /// the newly published `Running` state, so it looks again whether the
    /// server is live.
    pub fn ensure_claimed(&mut self, id: &ServerId, live: bool, can_spawn: bool, now: Instant) -> (r:
        Ensure)
        ensures
            (final(self)@, r.deep_view()) == ensured_claimed(
                old(self)@,
                id@,
                live,
                can_spawn,
                now,
            ),
    {
        if live {
            let _ = self.finish_spawn(id, ServerLifecycle::Running);
            return Ensure::Ready;
        }
        self.reconcile_respawn_stability(id, now);
        if let Some(left) = self.respawn_backoff_remaining(id, now) {
            self.abandon_spawn(id, ServerLifecycle::Failed);
            return Ensure::Fail(crash_looping_error(id, left));
        }
        if can_spawn {
            return Ensure::Spawn;
        }
        self.record_respawn_failure(id, now);
        self.abandon_spawn(id, ServerLifecycle::Failed);
        Ensure::Fail(unavailable_error(id, "this translator cannot start a server".to_owned()))
    }

    /// Record how the spawn of `id` ended.
    pub fn end_spawn(&mut self, id: &ServerId, outcome: SpawnOutcome, now: Instant) -> (r:
        SpawnNext)
        ensures
            (final(self)@, r) == spawn_ended(old(self)@, id@, outcome, now),
    {
        match outcome {
            SpawnOutcome::Installed => {
                self.record_respawn_success(id, now);
                if self.finish_spawn(id, ServerLifecycle::Running) {
                    SpawnNext::Ended
                } else {
                    SpawnNext::Retire
                }
            },
            SpawnOutcome::MissingBinary => {
                self.record_respawn_failure(id, now);
                self.abandon_spawn(id, ServerLifecycle::NotInstalled);
                SpawnNext::Ended
            },
            SpawnOutcome::Failed => {
                self.record_respawn_failure(id, now);
                self.abandon_spawn(id, ServerLifecycle::Failed);
                SpawnNext::Ended
            },
        }
    }
}

/// What the wait for `id` comes to in `state`; `None` while it goes on.
pub fn await_terminal_state(id: &ServerId, state: ServerLifecycle, timed_out: bool) -> (r: Option<
    Result<(), Error>,
>)
    ensures
        match r {
            None => awaited(id@, state, timed_out) is None,
            Some(Ok(())) => awaited(id@, state, timed_out) == Some(Ok::<(), ErrorView>(())),
            Some(Err(e)) => awaited(id@, state, timed_out) == Some(
                Err::<(), ErrorView>(e.deep_view()),
            ),
        },
{
    match state {
        ServerLifecycle::Running => Some(Ok(())),
        ServerLifecycle::NotInstalled => Some(
            Err(unavailable_error(id, "command not found".to_owned())),
        ),
        ServerLifecycle::Failed => Some(Err(unavailable_error(id, "failed to start".to_owned()))),
        _ => {
            if timed_out {
                Some(Err(Error::ServerInitializing { server_id: id.name.clone() }))
            } else {
                None
            }
        },
    }
}

/// One step of putting a new server in the place of an old one.
#[derive(Clone, Copy, Debug, PartialEq, Eq, Structural)]
pub enum InstallStep {
    /// Forget the file watches of the process that is gone.
    ForgetWatches,
    /// Announce that a diagnostics owner is being replaced.
    AnnounceReplacement,
    /// Begin to merge the newcomer's diagnostics into the baseline.
    BeginBaselineMerge,
    /// Spawn the process and initialize it.
    Spawn,
    /// End the merge that was begun, because the spawn failed.
    EndBaselineMerge,
    /// Fail the requests that still wait for the old process.
    FailPendingRequests,
    /// Stop relaying the old process's notifications.
    RetirePump,
    /// Clear the diagnostics cached for it.
    ClearDiagnostics,
    /// Forget the documents it had open.
    ForgetDocuments,
    /// Relay the new process's notifications.
    InstallPump,
    /// Count the new process as a diagnostics owner.
    RegisterOwner,
    /// Give its startup a whole deadline.
    RestartDeadline,
    /// Count the diagnostics routes again.
    CountRoutes,
    /// Mark the announced replacement as complete.
    CompleteReplacement,
    /// Put the new server and its client in place.
    Register,
}

/// What is there while a server is being installed.
#[derive(Clone, Copy, Debug, PartialEq, Eq, Structural)]
pub struct InstallSetting {
    /// Whether the server's diagnostics are cached.
    pub caches_diagnostics: bool,
    /// Whether notifications are relayed at all.
    pub has_pumps: bool,
    /// Whether there is a cache.
    pub has_cache: bool,
    /// Whether a client of the server is registered.
    pub has_client: bool,
}

/// A step that is taken under a condition.
pub open spec fn step_if(step: InstallStep, taken: bool) -> Seq<InstallStep> {
    if taken {
        seq![step]
    } else {
        Seq::empty()
    }
}

/// The steps up to the spawn: the watches go first, since the fresh process
/// registers its own while it is initialized.
pub open spec fn steps_before(s: InstallSetting) -> Seq<InstallStep> {
    let replaces = s.caches_diagnostics && s.has_pumps;
    seq![InstallStep::ForgetWatches] + step_if(InstallStep::AnnounceReplacement, replaces)
        + step_if(InstallStep::BeginBaselineMerge, replaces) + seq![InstallStep::Spawn]
}

/// The steps after the spawn, which may have failed.
pub open spec fn steps_after(s: InstallSetting, spawned: bool, merging: bool) -> Seq<InstallStep> {
    let replaces = s.caches_diagnostics && s.has_pumps;
    if !spawned {
        step_if(InstallStep::EndBaselineMerge, s.has_pumps && merging)
    } else {
        step_if(InstallStep::FailPendingRequests, s.has_client) + step_if(
            InstallStep::RetirePump,
            s.has_pumps,
        ) + step_if(InstallStep::ClearDiagnostics, s.caches_diagnostics && s.has_cache)
            + seq![InstallStep::ForgetDocuments] + step_if(InstallStep::InstallPump, s.has_pumps)
            + step_if(InstallStep::RegisterOwner, replaces) + step_if(
            InstallStep::RestartDeadline,
            replaces,
        ) + step_if(InstallStep::CountRoutes, replaces && s.has_cache) + step_if(
            InstallStep::CompleteReplacement,
            replaces,
        ) + seq![InstallStep::Register]
    }
}

fn push_if(steps: &mut Vec<InstallStep>, step: InstallStep, taken: bool)
    ensures
        final(steps)@ == old(steps)@ + step_if(step, taken),
{
    if taken {
        steps.push(step);
        assert(steps@ =~= old(steps)@ + seq![step]);
    } else {
        assert(steps@ =~= old(steps)@ + Seq::<InstallStep>::empty());
    }
}

/// The steps of installing a server, up to its spawn.
pub fn install_server(s: InstallSetting) -> (r: Vec<InstallStep>)
    ensures
        r@ == steps_before(s),
{
    let replaces = s.caches_diagnostics && s.has_pumps;
    let mut steps: Vec<InstallStep> = Vec::new();
    push_if(&mut steps, InstallStep::ForgetWatches, true);
    push_if(&mut steps, InstallStep::AnnounceReplacement, replaces);
    push_if(&mut steps, InstallStep::BeginBaselineMerge, replaces);
    push_if(&mut steps, InstallStep::Spawn, true);
    assert(steps@ =~= steps_before(s));
    steps
}

/// The steps of installing a server after its spawn. `merging` says whether a
/// merge into the baseline was begun.
pub fn install_spawned(s: InstallSetting, spawned: bool, merging: bool) -> (r: Vec<InstallStep>)
    ensures
        r@ == steps_after(s, spawned, merging),
{
    let replaces = s.caches_diagnostics && s.has_pumps;
    let mut steps: Vec<InstallStep> = Vec::new();
    if !spawned {
        push_if(&mut steps, InstallStep::EndBaselineMerge, s.has_pumps && merging);
        assert(steps@ =~= steps_after(s, spawned, merging));
        return steps;
    }
    push_if(&mut steps, InstallStep::FailPendingRequests, s.has_client);
    push_if(&mut steps, InstallStep::RetirePump, s.has_pumps);
    push_if(&mut steps, InstallStep::ClearDiagnostics, s.caches_diagnostics && s.has_cache);
    push_if(&mut steps, InstallStep::ForgetDocuments, true);
    push_if(&mut steps, InstallStep::InstallPump, s.has_pumps);
    push_if(&mut steps, InstallStep::RegisterOwner, replaces);
    push_if(&mut steps, InstallStep::RestartDeadline, replaces);
    push_if(&mut steps, InstallStep::CountRoutes, replaces && s.has_cache);
    push_if(&mut steps, InstallStep::CompleteReplacement, replaces);
    push_if(&mut steps, InstallStep::Register, true);
    assert(steps@ =~= steps_after(s, spawned, merging));
    steps
}

/// The merge that is to be run once a server is installed, where `open_merge` is
/// the one that was begun for it.
pub open spec fn merge_to_run(s: InstallSetting, open_merge: Option<u64>) -> Option<u64> {
    if s.caches_diagnostics && s.has_pumps {
        open_merge
    } else {
        None
    }
}

/// The merge into the baseline that is to be run once a server is installed: the
/// one that `open_merge` names as begun for it, where its diagnostics are cached
/// and its notifications relayed. A merge that is run ends on its own.
pub fn merge_after_install(s: InstallSetting, open_merge: Option<u64>) -> (r: Option<u64>)
    ensures
        r == (if s.caches_diagnostics && s.has_pumps {
            open_merge
        } else {
            None
        }),
        r == merge_to_run(s, open_merge),
{
    if s.caches_diagnostics && s.has_pumps {
        open_merge
    } else {
        None
    }
}

/// A merge into the baseline that was begun does not stay open: where the spawn
/// failed a step ends it, and otherwise it is run.
pub proof fn law_a_begun_merge_is_run_or_ended(s: InstallSetting, spawned: bool)
    requires
        steps_before(s).contains(InstallStep::BeginBaselineMerge),
    ensures
        s.caches_diagnostics && s.has_pumps,
        !spawned ==> steps_after(s, spawned, true) == seq![InstallStep::EndBaselineMerge],
        spawned ==> !steps_after(s, spawned, true).contains(InstallStep::EndBaselineMerge),
{
    let before = steps_before(s);
    let at = choose|i: int|
        0 <= i < before.len() && before[i] == InstallStep::BeginBaselineMerge;
    assert(before[at] == InstallStep::BeginBaselineMerge);
}

/// The delay never shrinks as failures go on, and stays within its bounds.
pub proof fn law_the_delay_grows_to_its_bound(failures: nat)
    ensures
        RESPAWN_BACKOFF_BASE <= delay_after(failures) <= RESPAWN_BACKOFF_MAX,
        delay_after(failures) <= delay_after(failures + 1),
        failures >= 6 ==> delay_after(failures) == RESPAWN_BACKOFF_MAX,
{
    reveal_with_fuel(doubled, 6);
    assert(doubled(0) == 1 && doubled(1) == 2 && doubled(2) == 4 && doubled(3) == 8 && doubled(4)
        == 16 && doubled(5) == 32);
}

/// A server that keeps dying right after a successful start is backed off like
/// one that fails to start.
pub proof fn law_a_short_lived_success_counts_as_a_failure(
    v: ServersView,
    id: Seq<char>,
    started: Instant,
    now: Instant,
)
    requires
        started <= now < started + RESPAWN_BACKOFF_BASE,
    ensures
        backoff_left(reconciled(with_success(v, id, started), id, now), id, now) is Some,
        failures_of(reconciled(with_success(v, id, started), id, now), id) == one_more(
            failures_of(v, id),
        ),
{
    let w = with_success(v, id, started);
    let r = reconciled(w, id, now);
    assert(w.backoffs[id].last_attempt == started);
    assert(r.backoffs[id].consecutive_failures > 0);
    law_the_delay_grows_to_its_bound(r.backoffs[id].consecutive_failures as nat);
}

/// A server that stayed alive for the base delay starts with a clean record
/// when it dies later.
pub proof fn law_a_lasting_success_clears_the_record(
    v: ServersView,
    id: Seq<char>,
    started: Instant,
    now: Instant,
)
    requires
        now >= started + RESPAWN_BACKOFF_BASE,
    ensures
        failures_of(reconciled(with_success(v, id, started), id, now), id) == 0,
        backoff_left(reconciled(with_success(v, id, started), id, now), id, now) is None,
{
}

/// A death is counted once: settling it again changes nothing.
pub proof fn law_a_death_is_counted_once(
    v: ServersView,
    id: Seq<char>,
    now: Instant,
    later: Instant,
)
    ensures
        reconciled(reconciled(v, id, now), id, later) == reconciled(v, id, now),
{
}

/// Inside its backoff a server is not spawned, and its state is left alone.
pub proof fn law_a_backed_off_server_is_not_spawned(
    v: ServersView,
    id: Seq<char>,
    live: bool,
    now: Instant,
)
    requires
        !live,
        backoff_left(reconciled(v, id, now), id, now) is Some,
    ensures
        !(ensured(v, id, live, now).1 is Claimed),
        ensured(v, id, live, now).0.states == v.states,
        ensured(v, id, live, now).0.spawning == v.spawning,
{
}

/// A failed attempt can be made again exactly when its delay has passed.
pub proof fn law_the_backoff_ends(v: ServersView, id: Seq<char>, failed: Instant, now: Instant)
    requires
        failed <= now,
    ensures
        backoff_left(with_failure(v, id, failed), id, now) is None <==> now - failed
            >= delay_after(one_more(failures_of(v, id)) as nat),
{
}

/// A spawn is only ever asked for by the caller that holds the claim, and that
/// claim stays until the spawn ends.
pub proof fn law_a_spawn_is_asked_for_under_a_claim(
    v: ServersView,
    id: Seq<char>,
    live: bool,
    can_spawn: bool,
    now: Instant,
)
    ensures
        ensured(v, id, live, now).1 is Claimed ==> ensured(v, id, live, now).0.spawning.contains(
            id,
        ),
        !(ensured(v, id, live, now).1 is Spawn),
        ensured_claimed(v, id, live, can_spawn, now).1 is Spawn ==> ensured_claimed(
            v,
            id,
            live,
            can_spawn,
            now,
        ).0.spawning == v.spawning,
        ensured_claimed(v, id, live, can_spawn, now).1 is Fail ==> !ensured_claimed(
            v,
            id,
            live,
            can_spawn,
            now,
        ).0.spawning.contains(id),
{
}

/// Of a look at a process only the finding that it has exited makes the server
/// dead, and a registered client is among the live ones exactly where its server
/// is not.
pub proof fn law_only_a_found_exit_is_a_death(id: Seq<char>, exited: Option<bool>)
    ensures
        !known_dead(None),
        known_dead(exited) <==> exited is Some && exited->Some_0,
        live_ids(seq![(id, exited)]) == if known_dead(exited) {
            Seq::<Seq<char>>::empty()
        } else {
            seq![id]
        },
{
    let none = Seq::<(Seq<char>, Option<bool>)>::empty();
    crate::server_laws::law_who_is_live(none, (id, exited));
    assert(none.push((id, exited)) =~= seq![(id, exited)]);
    assert(Seq::<Seq<char>>::empty().push(id) =~= seq![id]);
}

/// A merge is run exactly where one was begun by the steps before the spawn, and
/// it is that one.
pub proof fn law_the_begun_merge_is_the_one_run(s: InstallSetting, merge: u64)
    ensures
        merge_to_run(s, None) is None,
        merge_to_run(s, Some(merge)) == Some(merge) <==> steps_before(s).contains(
            InstallStep::BeginBaselineMerge,
        ),
        merge_to_run(s, Some(merge)) is None <==> !steps_before(s).contains(
            InstallStep::BeginBaselineMerge,
        ),
{
    let before = steps_before(s);
    if s.caches_diagnostics && s.has_pumps {
        assert(before[2] == InstallStep::BeginBaselineMerge);
    } else if before.contains(InstallStep::BeginBaselineMerge) {
        law_a_begun_merge_is_run_or_ended(s, true);
    }
}

} // verus!
