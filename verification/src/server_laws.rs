//! What starting, watching, stopping and asking language servers and backends
//! promises.

use crate::clock;
use crate::clock::{Duration, Instant};
use crate::control;
use crate::control::{
    ContactView, FoundView, StartActionView, StartEventView, StartState, StartView, StopActionView,
    StoppedView,
};
use crate::delivery::DiagnosticSnapshot;
use crate::error::{Error, ErrorView};
use crate::handshake::ReplyView;
use crate::lifecycle;
use crate::lifecycle::{ServerLifecycle, ServersView};
use crate::respawn;
use crate::respawn::{EnsureView, InstallSetting, InstallStep, SpawnNext, SpawnOutcome};
use crate::search;
use crate::search::{ActionView, SearchEvent, SearchView, StateView};
use crate::spawn;
use crate::spawn::BackendLaunch;
use crate::symbols;
use crate::symbols::{CandidateView, NoServerReason, SymbolInformation};
use crate::text;
use crate::user_control;
use crate::user_control::RestartNext;
use vstd::prelude::*;
use vstd::string::*;

verus! {

/// Different states are shown differently.
pub proof fn law_states_are_told_apart(a: ServerLifecycle, b: ServerLifecycle)
    ensures
        lifecycle::lifecycle_text(a) == lifecycle::lifecycle_text(b) ==> a == b,
{
    lemma_state_text(a);
    lemma_state_text(b);
}

proof fn lemma_state_text(a: ServerLifecycle)
    ensures
        ({
            let t = lifecycle::lifecycle_text(a);
            match a {
                ServerLifecycle::Idle => t.len() == 4,
                ServerLifecycle::Starting => t.len() == 8,
                ServerLifecycle::Running => t.len() == 7 && t[0] == 'r',
                ServerLifecycle::NotInstalled => t.len() == 13,
                ServerLifecycle::Failed => t.len() == 6,
                ServerLifecycle::Stopped => t.len() == 7 && t[0] == 's',
            }
        }),
{
    reveal_strlit("idle");
    reveal_strlit("starting");
    reveal_strlit("running");
    reveal_strlit("not installed");
    reveal_strlit("failed");
    reveal_strlit("stopped");
}

/// A spawn that ended is no longer claimed, and the server is then in the state
/// that the spawn left it in, unless a user stopped it. What is remembered of
/// crashes is not touched by any of this.
pub proof fn law_an_ended_spawn_leaves_its_state(
    v: ServersView,
    id: Seq<char>,
    state: ServerLifecycle,
)
    ensures
        !lifecycle::is_in(v, id, ServerLifecycle::Stopped) ==> {
            &&& lifecycle::is_in(lifecycle::finished(v, id, state), id, state)
            &&& !lifecycle::finished(v, id, state).spawning.contains(id)
            &&& lifecycle::is_in(lifecycle::abandoned(v, id, state), id, state)
        },
        lifecycle::is_in(v, id, ServerLifecycle::Stopped) ==> lifecycle::finished(v, id, state)
            == v,
        !lifecycle::abandoned(v, id, state).spawning.contains(id),
        lifecycle::is_in(lifecycle::seeded(v, id), id, ServerLifecycle::Starting),
        lifecycle::seeded(v, id).spawning.contains(id),
        !lifecycle::claimable(lifecycle::seeded(v, id), id),
        lifecycle::finished(v, id, state).backoffs == v.backoffs,
        lifecycle::abandoned(v, id, state).backoffs == v.backoffs,
        lifecycle::claimed(v, id).backoffs == v.backoffs,
        lifecycle::released(v, id).backoffs == v.backoffs,
        lifecycle::reset(v, id).backoffs == v.backoffs,
        lifecycle::seeded(v, id).backoffs == v.backoffs,
{
}

/// A spawn can be claimed exactly where the server is idle, failed or running
/// and no spawn of it is claimed. Claiming makes it a starting one, and changes
/// nothing where it cannot be claimed.
pub proof fn law_what_can_be_claimed(v: ServersView, id: Seq<char>)
    ensures
        lifecycle::claimable(v, id) <==> {
            &&& v.states.dom().contains(id)
            &&& !v.spawning.contains(id)
            &&& v.states[id] != ServerLifecycle::Starting
            &&& v.states[id] != ServerLifecycle::NotInstalled
            &&& v.states[id] != ServerLifecycle::Stopped
        },
        lifecycle::claimable(v, id) ==> lifecycle::claimed(v, id).spawning == v.spawning.insert(id),
        lifecycle::claimable(v, id) ==> lifecycle::claimed(v, id).states == v.states.insert(
            id,
            ServerLifecycle::Starting,
        ),
        !lifecycle::claimable(v, id) ==> lifecycle::claimed(v, id) == v,
{
}

/// A claim that a stop left behind is given up, unless a start has adopted it.
pub proof fn law_a_left_claim_is_given_up(v: ServersView, id: Seq<char>)
    ensures
        lifecycle::is_in(v, id, ServerLifecycle::Starting) ==> lifecycle::released(v, id) == v,
        !lifecycle::is_in(v, id, ServerLifecycle::Starting) ==> !lifecycle::released(
            v,
            id,
        ).spawning.contains(id),
        lifecycle::released(v, id).states == v.states,
{
}

/// An explicit start makes a stopped, missing or failed server idle, or adopts
/// the spawn of a stopped one that is in flight. A server that is idle, starting
/// or running, or does not apply, is left alone, and no spawn is claimed or
/// given up.
pub proof fn law_what_an_explicit_start_changes(v: ServersView, id: Seq<char>)
    ensures
        lifecycle::reset(v, id).spawning == v.spawning,
        !v.states.dom().contains(id) ==> lifecycle::reset(v, id) == v,
        lifecycle::is_in(v, id, ServerLifecycle::Idle) || lifecycle::is_in(
            v,
            id,
            ServerLifecycle::Starting,
        ) || lifecycle::is_in(v, id, ServerLifecycle::Running) ==> lifecycle::reset(v, id) == v,
        lifecycle::is_in(v, id, ServerLifecycle::Failed) || lifecycle::is_in(
            v,
            id,
            ServerLifecycle::NotInstalled,
        ) ==> lifecycle::is_in(lifecycle::reset(v, id), id, ServerLifecycle::Idle),
        lifecycle::is_in(v, id, ServerLifecycle::Stopped) && !v.spawning.contains(id)
            ==> lifecycle::is_in(lifecycle::reset(v, id), id, ServerLifecycle::Idle),
{
}

/// What is done to one server leaves the state, the claim and the crash record
/// of every other as they were.
pub proof fn law_other_servers_are_left_alone(
    v: ServersView,
    id: Seq<char>,
    other: Seq<char>,
    state: ServerLifecycle,
    live: bool,
    can_spawn: bool,
    outcome: SpawnOutcome,
    now: Instant,
)
    requires
        other != id,
    ensures
        same_server(lifecycle::with_state(v, id, state), v, other),
        same_server(lifecycle::claimed(v, id), v, other),
        same_server(lifecycle::finished(v, id, state), v, other),
        same_server(lifecycle::abandoned(v, id, state), v, other),
        same_server(lifecycle::released(v, id), v, other),
        same_server(lifecycle::seeded(v, id), v, other),
        same_server(lifecycle::reset(v, id), v, other),
        same_server(respawn::reconciled(v, id, now), v, other),
        same_server(respawn::ensured(v, id, live, now).0, v, other),
        same_server(respawn::ensured_claimed(v, id, live, can_spawn, now).0, v, other),
        same_server(respawn::spawn_ended(v, id, outcome, now).0, v, other),
        same_server(user_control::readied(v, id), v, other),
        same_server(user_control::restarted(v, id, live, can_spawn).0, v, other),
{
}

/// Whether two views agree about one server.
pub open spec fn same_server(a: ServersView, b: ServersView, id: Seq<char>) -> bool {
    &&& a.states.dom().contains(id) == b.states.dom().contains(id)
    &&& a.states.dom().contains(id) ==> a.states[id] == b.states[id]
    &&& a.spawning.contains(id) == b.spawning.contains(id)
    &&& a.backoffs.dom().contains(id) == b.backoffs.dom().contains(id)
    &&& a.backoffs.dom().contains(id) ==> a.backoffs[id] == b.backoffs[id]
}

/// The first failure is waited out for the base delay, and each one after it
/// for twice as long as the one before, up to the bound.
pub proof fn law_the_delay_doubles(failures: nat)
    requires
        failures >= 1,
    ensures
        respawn::delay_after(1) == respawn::RESPAWN_BACKOFF_BASE,
        respawn::delay_after(failures + 1) == if 2 * respawn::delay_after(failures)
            <= respawn::RESPAWN_BACKOFF_MAX {
            2 * respawn::delay_after(failures)
        } else {
            respawn::RESPAWN_BACKOFF_MAX as int
        },
{
    reveal_with_fuel(respawn::doubled, 7);
    assert(respawn::doubled(0) == 1);
    assert(respawn::doubled(1) == 2);
    assert(respawn::doubled(2) == 4);
    assert(respawn::doubled(3) == 8);
    assert(respawn::doubled(4) == 16);
    assert(respawn::doubled(5) == 32);
}

/// What is said to be left of a delay is exactly how long the server is still
/// left alone.
pub proof fn law_the_rest_of_a_delay_is_exact(
    v: ServersView,
    id: Seq<char>,
    now: Instant,
    later: Instant,
)
    requires
        respawn::backoff_left(v, id, now) is Some,
        v.backoffs[id].last_attempt <= now <= later,
    ensures
        respawn::backoff_left(v, id, now)->Some_0 > 0,
        respawn::backoff_left(v, id, later) is None <==> later - now >= respawn::backoff_left(
            v,
            id,
            now,
        )->Some_0,
{
    respawn::law_the_delay_grows_to_its_bound(v.backoffs[id].consecutive_failures as nat);
}

/// A failure is counted on top of those before it, as far as the counter goes,
/// and a success leaves the count alone.
pub proof fn law_failures_are_counted(v: ServersView, id: Seq<char>, now: Instant)
    ensures
        respawn::failures_of(v, id) < u32::MAX ==> respawn::failures_of(
            respawn::with_failure(v, id, now),
            id,
        ) == respawn::failures_of(v, id) + 1,
        respawn::failures_of(respawn::with_success(v, id, now), id) == respawn::failures_of(v, id),
        respawn::failures_of(respawn::without_backoff(v, id), id) == 0,
        respawn::with_failure(v, id, now).states == v.states,
        respawn::with_failure(v, id, now).spawning == v.spawning,
        respawn::with_success(v, id, now).states == v.states,
        respawn::with_success(v, id, now).spawning == v.spawning,
{
}

/// A live server is ready and nothing changes. One that does not apply or is
/// not installed fails. One that can be claimed and is not in its backoff is
/// claimed; one whose spawn is in flight is waited for.
pub proof fn law_what_ensuring_comes_to(v: ServersView, id: Seq<char>, live: bool, now: Instant)
    ensures
        live ==> respawn::ensured(v, id, live, now) == (v, EnsureView::Ready),
        !live && !v.states.dom().contains(id) ==> respawn::ensured(v, id, live, now).1 is Fail,
        !live && lifecycle::is_in(v, id, ServerLifecycle::NotInstalled) ==> respawn::ensured(
            v,
            id,
            live,
            now,
        ).1 is Fail,
        !live && lifecycle::claimable(v, id) && respawn::backoff_left(
            respawn::reconciled(v, id, now),
            id,
            now,
        ) is None ==> {
            &&& respawn::ensured(v, id, live, now).1 is Claimed
            &&& lifecycle::is_in(
                respawn::ensured(v, id, live, now).0,
                id,
                ServerLifecycle::Starting,
            )
        },
        !live && lifecycle::is_in(v, id, ServerLifecycle::Starting) && respawn::backoff_left(
            respawn::reconciled(v, id, now),
            id,
            now,
        ) is None ==> respawn::ensured(v, id, live, now).1 is Wait,
        respawn::ensured(v, id, live, now).1 matches EnsureView::Fail(e) ==> (
        e matches ErrorView::ServerUnavailable { server_id, .. } && server_id == id),
        respawn::ensured_claimed(v, id, live, true, now).1 matches EnsureView::Fail(e) ==> (
        e matches ErrorView::ServerUnavailable { server_id, .. } && server_id == id),
{
}

/// Under a claim, a server that turns out to be live is a running one, one that
/// is neither live nor in its backoff is spawned where it can be, and one that
/// cannot be spawned is a failed one with a failure more.
pub proof fn law_what_a_claim_comes_to(
    v: ServersView,
    id: Seq<char>,
    can_spawn: bool,
    now: Instant,
)
    requires
        lifecycle::is_in(v, id, ServerLifecycle::Starting),
    ensures
        respawn::ensured_claimed(v, id, true, can_spawn, now).1 is Ready,
        lifecycle::is_in(
            respawn::ensured_claimed(v, id, true, can_spawn, now).0,
            id,
            ServerLifecycle::Running,
        ),
        respawn::backoff_left(respawn::reconciled(v, id, now), id, now) is None && can_spawn ==> {
            &&& respawn::ensured_claimed(v, id, false, can_spawn, now).1 is Spawn
            &&& lifecycle::is_in(
                respawn::ensured_claimed(v, id, false, can_spawn, now).0,
                id,
                ServerLifecycle::Starting,
            )
        },
        respawn::backoff_left(respawn::reconciled(v, id, now), id, now) is None && !can_spawn ==> {
            &&& respawn::ensured_claimed(v, id, false, can_spawn, now).1 is Fail
            &&& lifecycle::is_in(
                respawn::ensured_claimed(v, id, false, can_spawn, now).0,
                id,
                ServerLifecycle::Failed,
            )
            &&& respawn::failures_of(
                respawn::ensured_claimed(v, id, false, can_spawn, now).0,
                id,
            ) > 0
        },
        respawn::backoff_left(respawn::reconciled(v, id, now), id, now) is Some ==> {
            &&& respawn::ensured_claimed(v, id, false, can_spawn, now).1 is Fail
            &&& lifecycle::is_in(
                respawn::ensured_claimed(v, id, false, can_spawn, now).0,
                id,
                ServerLifecycle::Failed,
            )
        },
{
}

/// A wait ends with the server: well where it runs, with an error that names it
/// where it is missing or failed. Without either it goes on until its time is
/// up.
pub proof fn law_how_a_wait_ends(id: Seq<char>, state: ServerLifecycle, timed_out: bool)
    ensures
        respawn::awaited(id, state, timed_out) == Some(Ok::<(), ErrorView>(())) <==> state
            == ServerLifecycle::Running,
        respawn::awaited(id, state, timed_out) is None <==> !timed_out && (state
            == ServerLifecycle::Idle || state == ServerLifecycle::Starting || state
            == ServerLifecycle::Stopped),
        respawn::awaited(id, state, timed_out) matches Some(Err(e)) ==> {
            ||| e matches ErrorView::ServerUnavailable { server_id, .. } && server_id == id && (
            state == ServerLifecycle::NotInstalled || state == ServerLifecycle::Failed)
            ||| e == (ErrorView::ServerInitializing { server_id: id }) && timed_out
        },
{
}

/// An installed server runs and the failures before it still count; a missing
/// one is not installed and a failed one failed, each with a failure more. After
/// a user's stop it stays stopped, and what was installed is retired.
pub proof fn law_how_a_spawn_ends(v: ServersView, id: Seq<char>, now: Instant)
    requires
        respawn::failures_of(v, id) < u32::MAX,
    ensures
        !lifecycle::is_in(v, id, ServerLifecycle::Stopped) ==> {
            let (after, next) = respawn::spawn_ended(v, id, SpawnOutcome::Installed, now);
            &&& lifecycle::is_in(after, id, ServerLifecycle::Running)
            &&& next == SpawnNext::Ended
            &&& !after.spawning.contains(id)
            &&& respawn::failures_of(after, id) == respawn::failures_of(v, id)
            &&& after.backoffs[id].last_attempt == now
            &&& after.backoffs[id].last_attempt_succeeded
        },
        lifecycle::is_in(v, id, ServerLifecycle::Stopped) ==> {
            let (after, next) = respawn::spawn_ended(v, id, SpawnOutcome::Installed, now);
            &&& next == SpawnNext::Retire
            &&& lifecycle::is_in(after, id, ServerLifecycle::Stopped)
            &&& after.spawning == v.spawning
        },
        !lifecycle::is_in(v, id, ServerLifecycle::Stopped) ==> {
            &&& lifecycle::is_in(
                respawn::spawn_ended(v, id, SpawnOutcome::MissingBinary, now).0,
                id,
                ServerLifecycle::NotInstalled,
            )
            &&& lifecycle::is_in(
                respawn::spawn_ended(v, id, SpawnOutcome::Failed, now).0,
                id,
                ServerLifecycle::Failed,
            )
        },
        respawn::failures_of(respawn::spawn_ended(v, id, SpawnOutcome::MissingBinary, now).0, id)
            == respawn::failures_of(v, id) + 1,
        respawn::failures_of(respawn::spawn_ended(v, id, SpawnOutcome::Failed, now).0, id)
            == respawn::failures_of(v, id) + 1,
        !respawn::spawn_ended(v, id, SpawnOutcome::Failed, now).0.spawning.contains(id),
        !respawn::spawn_ended(v, id, SpawnOutcome::MissingBinary, now).0.spawning.contains(id),
{
}

/// The live servers are, in their order, those whose process is not known to
/// have exited.
pub proof fn law_who_is_live(
    before: Seq<(Seq<char>, Option<bool>)>,
    client: (Seq<char>, Option<bool>),
)
    ensures
        respawn::live_ids(Seq::empty()) == Seq::<Seq<char>>::empty(),
        client.1 == Some(true) ==> respawn::live_ids(before.push(client)) == respawn::live_ids(
            before,
        ),
        client.1 != Some(true) ==> respawn::live_ids(before.push(client)) == respawn::live_ids(
            before,
        ).push(client.0),
{
    reveal(Seq::filter);
    assert(before.push(client).drop_last() =~= before);
    assert(respawn::live_ids(Seq::empty()) =~= Seq::<Seq<char>>::empty());
    if client.1 == Some(true) {
        assert(respawn::live_ids(before.push(client)) =~= respawn::live_ids(before));
    } else {
        assert(respawn::live_ids(before.push(client)) =~= respawn::live_ids(before).push(client.0));
    }
}

/// Where a step stands among the steps of an installation.
pub open spec fn rank(step: InstallStep) -> int {
    match step {
        InstallStep::ForgetWatches => 0,
        InstallStep::AnnounceReplacement => 1,
        InstallStep::BeginBaselineMerge => 2,
        InstallStep::Spawn => 3,
        InstallStep::EndBaselineMerge => 4,
        InstallStep::FailPendingRequests => 5,
        InstallStep::RetirePump => 6,
        InstallStep::ClearDiagnostics => 7,
        InstallStep::ForgetDocuments => 8,
        InstallStep::InstallPump => 9,
        InstallStep::RegisterOwner => 10,
        InstallStep::RestartDeadline => 11,
        InstallStep::CountRoutes => 12,
        InstallStep::CompleteReplacement => 13,
        InstallStep::Register => 14,
    }
}

/// Whether steps stand in their order, none of them twice.
pub open spec fn in_rank_order(steps: Seq<InstallStep>) -> bool {
    forall|i: int, j: int|
        0 <= i < j < steps.len() ==> rank(#[trigger] steps[i]) < rank(#[trigger] steps[j])
}

/// Whether a step is due before the spawn.
pub open spec fn due_before(s: InstallSetting, step: InstallStep) -> bool {
    match step {
        InstallStep::ForgetWatches | InstallStep::Spawn => true,
        InstallStep::AnnounceReplacement | InstallStep::BeginBaselineMerge => s.caches_diagnostics
            && s.has_pumps,
        _ => false,
    }
}

/// Whether a step is due after the spawn.
pub open spec fn due_after(
    s: InstallSetting,
    spawned: bool,
    merging: bool,
    step: InstallStep,
) -> bool {
    match step {
        InstallStep::EndBaselineMerge => !spawned && merging && s.has_pumps,
        InstallStep::ForgetDocuments | InstallStep::Register => spawned,
        InstallStep::FailPendingRequests => spawned && s.has_client,
        InstallStep::RetirePump | InstallStep::InstallPump => spawned && s.has_pumps,
        InstallStep::ClearDiagnostics => spawned && s.caches_diagnostics && s.has_cache,
        InstallStep::RegisterOwner
        | InstallStep::RestartDeadline
        | InstallStep::CompleteReplacement => spawned && s.caches_diagnostics && s.has_pumps,
        InstallStep::CountRoutes => spawned && s.caches_diagnostics && s.has_pumps && s.has_cache,
        _ => false,
    }
}

/// Whether steps are those of the ranks from `lo` up to `hi` that are due, in
/// their order.
#[verifier::opaque]
spec fn takes(steps: Seq<InstallStep>, lo: int, hi: int, due: spec_fn(InstallStep) -> bool) -> bool {
    &&& in_rank_order(steps)
    &&& forall|x: InstallStep| #[trigger]
        steps.contains(x) <==> lo <= rank(x) < hi && due(x)
}

proof fn lemma_takes_one(
    steps: Seq<InstallStep>,
    step: InstallStep,
    lo: int,
    due: spec_fn(InstallStep) -> bool,
)
    requires
        rank(step) == lo,
        steps == respawn::step_if(step, due(step)),
    ensures
        takes(steps, lo, lo + 1, due),
{
    reveal(takes);
    if due(step) {
        assert(steps[0] == step);
    }
}

proof fn lemma_takes_none(lo: int, hi: int, due: spec_fn(InstallStep) -> bool)
    requires
        forall|x: InstallStep| lo <= #[trigger] rank(x) < hi ==> !due(x),
    ensures
        takes(Seq::empty(), lo, hi, due),
{
    reveal(takes);
}

/// Steps in order, with later steps in order behind them, are in order.
proof fn lemma_takes_more(
    a: Seq<InstallStep>,
    b: Seq<InstallStep>,
    lo: int,
    mid: int,
    hi: int,
    due: spec_fn(InstallStep) -> bool,
)
    requires
        takes(a, lo, mid, due),
        takes(b, mid, hi, due),
        lo <= mid <= hi,
    ensures
        takes(a + b, lo, hi, due),
{
    reveal(takes);
    let c = a + b;
    assert forall|i: int, j: int| 0 <= i < j < c.len() implies rank(#[trigger] c[i]) < rank(
        #[trigger] c[j],
    ) by {
        if i < a.len() && j >= a.len() {
            assert(a.contains(a[i]));
            assert(b.contains(b[j - a.len()]));
        }
    }
    assert forall|x: InstallStep| #[trigger] c.contains(x) <==> lo <= rank(x) < hi && due(x) by {
        if a.contains(x) {
            let i = choose|i: int| 0 <= i < a.len() && a[i] == x;
            assert(c[i] == x);
        }
        if b.contains(x) {
            let i = choose|i: int| 0 <= i < b.len() && b[i] == x;
            assert(c[a.len() + i] == x);
        }
        if c.contains(x) {
            let i = choose|i: int| 0 <= i < c.len() && c[i] == x;
            if i < a.len() {
                assert(a[i] == x);
                assert(a.contains(x));
            } else {
                assert(b[i - a.len()] == x);
                assert(b.contains(x));
            }
        }
    }
}

/// An installation takes exactly the steps that are due, each once and in their
/// order: what belongs to the old process goes before what belongs to the new
/// one comes, and the new server is put in place last.
pub proof fn law_an_installation_takes_its_steps(s: InstallSetting, spawned: bool, merging: bool)
    ensures
        in_rank_order(respawn::steps_before(s)),
        in_rank_order(respawn::steps_after(s, spawned, merging)),
        forall|x: InstallStep| #[trigger]
            respawn::steps_before(s).contains(x) <==> due_before(s, x),
        forall|x: InstallStep| #[trigger]
            respawn::steps_after(s, spawned, merging).contains(x) <==> due_after(
                s,
                spawned,
                merging,
                x,
            ),
{
    let due = |x: InstallStep| due_before(s, x);
    let later = |x: InstallStep| due_after(s, spawned, merging, x);
    let replaces = s.caches_diagnostics && s.has_pumps;
    let b1 = seq![InstallStep::ForgetWatches];
    let b2 = respawn::step_if(InstallStep::AnnounceReplacement, replaces);
    let b3 = respawn::step_if(InstallStep::BeginBaselineMerge, replaces);
    let b4 = seq![InstallStep::Spawn];
    lemma_takes_one(b1, InstallStep::ForgetWatches, 0, due);
    lemma_takes_one(b2, InstallStep::AnnounceReplacement, 1, due);
    lemma_takes_one(b3, InstallStep::BeginBaselineMerge, 2, due);
    lemma_takes_one(b4, InstallStep::Spawn, 3, due);
    lemma_takes_more(b1, b2, 0, 1, 2, due);
    lemma_takes_more(b1 + b2, b3, 0, 2, 3, due);
    lemma_takes_more(b1 + b2 + b3, b4, 0, 3, 4, due);
    lemma_takes_none(4, 15, due);
    lemma_takes_more(b1 + b2 + b3 + b4, Seq::empty(), 0, 4, 15, due);
    assert(respawn::steps_before(s) =~= b1 + b2 + b3 + b4 + Seq::<InstallStep>::empty());
    assert(takes(respawn::steps_before(s), 0, 15, due));
    lemma_takes_none(0, 4, later);
    if spawned {
        let a0 = Seq::<InstallStep>::empty();
        let a1 = respawn::step_if(InstallStep::FailPendingRequests, s.has_client);
        let a2 = respawn::step_if(InstallStep::RetirePump, s.has_pumps);
        let a3 = respawn::step_if(
            InstallStep::ClearDiagnostics,
            s.caches_diagnostics && s.has_cache,
        );
        let a4 = seq![InstallStep::ForgetDocuments];
        let a5 = respawn::step_if(InstallStep::InstallPump, s.has_pumps);
        let a6 = respawn::step_if(InstallStep::RegisterOwner, replaces);
        let a7 = respawn::step_if(InstallStep::RestartDeadline, replaces);
        let a8 = respawn::step_if(InstallStep::CountRoutes, replaces && s.has_cache);
        let a9 = respawn::step_if(InstallStep::CompleteReplacement, replaces);
        let a10 = seq![InstallStep::Register];
        lemma_takes_none(0, 5, later);
        lemma_takes_one(a1, InstallStep::FailPendingRequests, 5, later);
        lemma_takes_one(a2, InstallStep::RetirePump, 6, later);
        lemma_takes_one(a3, InstallStep::ClearDiagnostics, 7, later);
        lemma_takes_one(a4, InstallStep::ForgetDocuments, 8, later);
        lemma_takes_one(a5, InstallStep::InstallPump, 9, later);
        lemma_takes_one(a6, InstallStep::RegisterOwner, 10, later);
        lemma_takes_one(a7, InstallStep::RestartDeadline, 11, later);
        lemma_takes_one(a8, InstallStep::CountRoutes, 12, later);
        lemma_takes_one(a9, InstallStep::CompleteReplacement, 13, later);
        lemma_takes_one(a10, InstallStep::Register, 14, later);
        lemma_takes_more(a0, a1, 0, 5, 6, later);
        assert(a0 + a1 =~= a1);
        lemma_takes_more(a1, a2, 0, 6, 7, later);
        lemma_takes_more(a1 + a2, a3, 0, 7, 8, later);
        lemma_takes_more(a1 + a2 + a3, a4, 0, 8, 9, later);
        lemma_takes_more(a1 + a2 + a3 + a4, a5, 0, 9, 10, later);
        lemma_takes_more(a1 + a2 + a3 + a4 + a5, a6, 0, 10, 11, later);
        lemma_takes_more(a1 + a2 + a3 + a4 + a5 + a6, a7, 0, 11, 12, later);
        lemma_takes_more(a1 + a2 + a3 + a4 + a5 + a6 + a7, a8, 0, 12, 13, later);
        lemma_takes_more(a1 + a2 + a3 + a4 + a5 + a6 + a7 + a8, a9, 0, 13, 14, later);
        lemma_takes_more(a1 + a2 + a3 + a4 + a5 + a6 + a7 + a8 + a9, a10, 0, 14, 15, later);
    } else {
        let a1 = respawn::step_if(InstallStep::EndBaselineMerge, s.has_pumps && merging);
        let none = Seq::<InstallStep>::empty();
        lemma_takes_one(a1, InstallStep::EndBaselineMerge, 4, later);
        lemma_takes_none(5, 15, later);
        lemma_takes_more(none, a1, 0, 4, 5, later);
        lemma_takes_more(none + a1, none, 0, 5, 15, later);
        assert(none + a1 + none =~= a1);
    }
    assert(takes(respawn::steps_after(s, spawned, merging), 0, 15, later));
    reveal(takes);
}

/// Whether `flag` is followed by `value` somewhere in a command line.
pub open spec fn gives(args: Seq<Seq<char>>, flag: Seq<char>, value: Seq<char>, i: int) -> bool {
    0 <= i < args.len() - 1 && args[i] == flag && args[i + 1] == value
}

/// A backend is launched for its root, at its log level, with the configuration
/// it was given, and nothing more than it was given.
pub proof fn law_a_backend_is_launched_as_given(launch: BackendLaunch)
    ensures
        ({
            let args = spawn::launch_args(launch);
            let n = args.len() as int;
            let c = if launch.config is Some { 2int } else { 0 };
            let t = if launch.trust_project_config { 1int } else { 0 };
            let j = if launch.log_json { 1int } else { 0 };
            &&& n == 5 + c + t + j
            &&& args[n - 3] == "backend"@
            &&& gives(args, "--root"@, launch.root@, n - 2)
            &&& gives(args, "--log-level"@, launch.log_level@, c + t)
            &&& launch.config matches Some(config) ==> gives(args, "--config"@, config@, 0)
            &&& launch.trust_project_config ==> args[c] == "--trust-project-config"@
            &&& launch.log_json ==> args[c + t + 2] == "--log-json"@
        }),
{
}

/// Neither of two waits is longer than the shorter of them.
pub proof fn law_the_shorter_wait_is_taken(a: int, b: Duration)
    requires
        a >= 0,
    ensures
        spawn::shorter(a, b) <= a,
        spawn::shorter(a, b) <= b,
        spawn::shorter(a, b) == a || spawn::shorter(a, b) == b,
{
}

/// Only a reply counts as an answer, and it is passed on as it came. A
/// connection that could not be made in time means a busy endpoint; anything
/// else means that nothing is there.
pub proof fn law_what_a_contact_found(contact: ContactView, reply: ReplyView)
    ensures
        control::found_of(contact) == FoundView::Answered(reply) <==> contact
            == ContactView::Replied(reply),
        control::found_of(contact) is Busy <==> contact is TimedOut,
        control::found_of(contact) is Absent <==> !(contact is Replied) && !(contact is TimedOut),
{
}

/// A start takes the lock, asks, spawns only where nothing is there, and then
/// asks until it has an answer, the process exits or its time is up.
pub proof fn law_how_a_start_goes(reply: ReplyView, now: Instant, deadline: u128)
    ensures
        control::start_step(StartState::Locking, StartEventView::Locked, now) == (
            StartState::Asking,
            StartActionView::AskToStay,
        ),
        control::start_step(
            StartState::Asking,
            StartEventView::Found(FoundView::Answered(reply)),
            now,
        ).1 == StartActionView::Done(StartView::Started { reply, spawned: false }),
        control::start_step(StartState::Asking, StartEventView::Found(FoundView::Busy), now).1
            == StartActionView::Done(StartView::Busy),
        control::start_step(StartState::Asking, StartEventView::Found(FoundView::Absent), now) == (
            StartState::Spawning,
            StartActionView::Spawn,
        ),
        control::start_step(
            StartState::Spawning,
            StartEventView::Going { exited: false },
            now,
        ).0 matches StartState::Polling { deadline: until } && until == now + control::START_WAIT,
        control::start_step(
            StartState::Polling { deadline },
            StartEventView::Found(FoundView::Answered(reply)),
            now,
        ).1 == StartActionView::Done(StartView::Started { reply, spawned: true }),
        now < deadline ==> control::start_step(
            StartState::Polling { deadline },
            StartEventView::Going { exited: false },
            now,
        ) == (StartState::Polling { deadline }, StartActionView::AskToStay),
        now >= deadline ==> control::start_step(
            StartState::Polling { deadline },
            StartEventView::Going { exited: false },
            now,
        ).1 == StartActionView::Done(StartView::NoAnswer),
        control::start_step(
            StartState::Polling { deadline },
            StartEventView::Going { exited: true },
            now,
        ).1 == StartActionView::Done(StartView::NoAnswer),
{
}

/// A stop is over where nothing is there, where the endpoint is busy and where
/// it is refused. Otherwise the endpoint is watched: it has stopped once it
/// cannot be reached, and lingers only once its whole time is up. The answer it
/// gave is the one that is reported.
pub proof fn law_how_a_stop_goes(reply: ReplyView, deadline: int, now: Instant)
    ensures
        control::stop_answered(FoundView::Absent, now) == StopActionView::Done(
            StoppedView::NotRunning,
        ),
        control::stop_answered(FoundView::Busy, now) == StopActionView::Done(StoppedView::Busy),
        reply.refusal is Some ==> control::stop_answered(FoundView::Answered(reply), now)
            == StopActionView::Done(StoppedView::Refused(reply)),
        reply.refusal is None ==> control::stop_answered(FoundView::Answered(reply), now) == (
        StopActionView::Probe { reply, deadline: now + control::STOP_WAIT }),
        control::stop_probed(reply, deadline, false, now) == StopActionView::Done(
            StoppedView::Stopped(reply),
        ),
        now < deadline ==> control::stop_probed(reply, deadline, true, now) == (
        StopActionView::Probe { reply, deadline }),
        now >= deadline ==> control::stop_probed(reply, deadline, true, now)
            == StopActionView::Done(StoppedView::Lingering(reply)),
{
}

/// The text between two texts stands between each two of a list and nowhere
/// else.
pub proof fn law_joining_puts_text_between(
    texts: Seq<Seq<char>>,
    more: Seq<char>,
    between: Seq<char>,
)
    ensures
        user_control::joined(Seq::empty(), between) == Seq::<char>::empty(),
        texts.len() == 0 ==> user_control::joined(texts.push(more), between) == more,
        texts.len() > 0 ==> user_control::joined(texts.push(more), between)
            == user_control::joined(texts, between) + between + more,
{
    assert(texts.push(more).drop_last() =~= texts);
    if texts.len() == 0 {
        assert(texts.push(more)[0] == more);
    }
}

/// An action is for exactly the servers that were named, in the order in which
/// they were, and is refused exactly where one of them does not apply.
pub proof fn law_who_an_action_is_for(requested: Seq<Seq<char>>, applicable: Seq<Seq<char>>)
    requires
        requested.len() > 0,
    ensures
        user_control::targets_of(requested, applicable) is Ok <==> forall|i: int|
            0 <= i < requested.len() ==> applicable.contains(#[trigger] requested[i]),
        user_control::targets_of(requested, applicable) matches Ok(targets) ==> targets
            == requested,
{
    let unknown = |name: Seq<char>| !applicable.contains(name);
    requested.filter_lemma(unknown);
    let left = user_control::unknown_among(requested, applicable);
    assert(left == requested.filter(unknown));
    if left.len() > 0 {
        requested.lemma_filter_contains_rev(unknown, left[0]);
        assert(unknown(left[0]));
        let i = choose|i: int| 0 <= i < requested.len() && requested[i] == left[0];
        assert(!applicable.contains(requested[i]));
    } else {
        assert forall|i: int| 0 <= i < requested.len() implies applicable.contains(
            #[trigger] requested[i],
        ) by {
            if !applicable.contains(requested[i]) {
                assert(unknown(requested[i]));
                assert(left.contains(requested[i]));
            }
        }
    }
}

/// The states of the targets are listed target by target: each one that applies
/// with its own state, the others not at all.
pub proof fn law_each_target_has_its_row(targets: Seq<Seq<char>>, more: Seq<char>, v: ServersView)
    ensures
        user_control::states_among(Seq::empty(), v).len() == 0,
        v.states.dom().contains(more) ==> user_control::states_among(targets.push(more), v)
            == user_control::states_among(targets, v).push((more, v.states[more])),
        !v.states.dom().contains(more) ==> user_control::states_among(targets.push(more), v)
            == user_control::states_among(targets, v),
{
    assert(targets.push(more).drop_last() =~= targets);
}

/// A restart clears the crash record. A server that is not live is started
/// explicitly; one that is live is spawned anew under a claim, where it can be
/// claimed and spawned, and is a failed one where it could be claimed and not
/// spawned.
pub proof fn law_how_a_restart_goes(v: ServersView, id: Seq<char>, can_spawn: bool)
    ensures
        !user_control::restarted(v, id, true, can_spawn).0.backoffs.dom().contains(id),
        !user_control::restarted(v, id, false, can_spawn).0.backoffs.dom().contains(id),
        user_control::restarted(v, id, false, can_spawn).1 is Start,
        user_control::restarted(v, id, false, can_spawn).0.states == lifecycle::reset(v, id).states,
        lifecycle::claimable(v, id) && can_spawn ==> {
            &&& user_control::restarted(v, id, true, can_spawn).1 is Spawn
            &&& lifecycle::is_in(
                user_control::restarted(v, id, true, can_spawn).0,
                id,
                ServerLifecycle::Starting,
            )
            &&& user_control::restarted(v, id, true, can_spawn).0.spawning.contains(id)
        },
        lifecycle::claimable(v, id) && !can_spawn ==> {
            &&& user_control::restarted(v, id, true, can_spawn).1 is Nothing
            &&& lifecycle::is_in(
                user_control::restarted(v, id, true, can_spawn).0,
                id,
                ServerLifecycle::Failed,
            )
        },
        !lifecycle::claimable(v, id) ==> {
            &&& user_control::restarted(v, id, true, can_spawn).1 is Nothing
            &&& user_control::restarted(v, id, true, can_spawn).0.states == v.states
            &&& user_control::restarted(v, id, true, can_spawn).0.spawning == v.spawning
        },
{
}

/// Why a chosen server has no client is told by its state, and names it.
pub proof fn law_why_a_client_is_missing(v: ServersView, id: Seq<char>)
    ensures
        symbols::missing_client(v, id) == (ErrorView::ServerInitializing { server_id: id })
            <==> lifecycle::is_in(v, id, ServerLifecycle::Idle) || lifecycle::is_in(
            v,
            id,
            ServerLifecycle::Starting,
        ),
        symbols::missing_client(v, id) matches ErrorView::ServerUnavailable { server_id, .. }
            ==> server_id == id && (lifecycle::is_in(v, id, ServerLifecycle::NotInstalled)
            || lifecycle::is_in(v, id, ServerLifecycle::Failed)),
        lifecycle::is_in(v, id, ServerLifecycle::NotInstalled) || lifecycle::is_in(
            v,
            id,
            ServerLifecycle::Failed,
        ) ==> symbols::missing_client(v, id) is ServerUnavailable,
        lifecycle::is_in(v, id, ServerLifecycle::Running) || lifecycle::is_in(
            v,
            id,
            ServerLifecycle::Stopped,
        ) || !v.states.dom().contains(id) ==> symbols::missing_client(v, id)
            is NoServerConfigured,
{
}

/// A server that routing gave is asked, unless its command is missing. Where
/// routing gave none, the search fails: servers are on their way where some
/// apply, and none is configured where none does.
pub proof fn law_which_candidate_is_asked(v: ServersView, id: Seq<char>)
    ensures
        symbols::judged_candidate(v, Ok::<Seq<char>, NoServerReason>(id)) is Exclude
            <==> lifecycle::is_in(v, id, ServerLifecycle::NotInstalled),
        !lifecycle::is_in(v, id, ServerLifecycle::NotInstalled) ==> symbols::judged_candidate(
            v,
            Ok::<Seq<char>, NoServerReason>(id),
        ) is Ask,
        v.states.dom().contains(id) ==> symbols::judged_candidate(
            v,
            Err::<Seq<char>, NoServerReason>(NoServerReason::NothingRegistered),
        ) == CandidateView::Fail(ErrorView::WorkspaceServersInitializing),
        v.states.dom() == Set::<Seq<char>>::empty() ==> symbols::judged_candidate(
            v,
            Err::<Seq<char>, NoServerReason>(NoServerReason::NothingRegistered),
        ) == CandidateView::Fail(ErrorView::NoServerConfigured),
        symbols::judged_candidate(v, Err::<Seq<char>, NoServerReason>(NoServerReason::NoClaimant))
            matches CandidateView::Fail(ErrorView::NoServerForWorkspaceTool { .. }),
{
    if v.states.dom() == Set::<Seq<char>>::empty() {
        assert(v.states =~= Map::<Seq<char>, ServerLifecycle>::empty());
    }
}

/// A search goes on with the server it chose: it is started, found, checked and
/// asked, in this order and under its own name. Every symbol of the answer is
/// shown where no kind was asked for and there are no more than the limit.
pub proof fn law_how_a_search_goes(
    v: ServersView,
    s: SearchView,
    id: Seq<char>,
    found: Vec<(SymbolInformation, DiagnosticSnapshot)>,
    i: int,
)
    ensures
        s.state == StateView::Ensuring(id) ==> search::search_step(
            v,
            s,
            SearchEvent::Ensured(Ok::<(), Error>(())),
        ).1 == ActionView::FindClient(id) && search::search_step(
            v,
            s,
            SearchEvent::Ensured(Ok::<(), Error>(())),
        ).0.state == StateView::Finding(id),
        s.state == StateView::Finding(id) ==> search::search_step(v, s, SearchEvent::Client(true)).1
            == ActionView::CheckCapability(id) && search::search_step(
            v,
            s,
            SearchEvent::Client(true),
        ).0.state == StateView::Checking(id),
        s.state == StateView::Checking(id) ==> search::search_step(
            v,
            s,
            SearchEvent::Capable(Ok::<(), Error>(())),
        ).1 == ActionView::Request(id, s.query) && search::search_step(
            v,
            s,
            SearchEvent::Capable(Ok::<(), Error>(())),
        ).0.state == StateView::Asking(id),
        s.state == StateView::Asking(id) && s.kind is None && found@.len() <= s.limit ==> (
        search::search_step(
            v,
            s,
            SearchEvent::Answered(Ok::<search::Answer, Error>(Some(found))),
        ).1 matches ActionView::Done(list) && list.len() == found@.len() && (0 <= i < list.len()
            ==> symbols::stands_for(list[i], found@[i]))),
        s.state == StateView::Asking(id) ==> (search::search_step(
            v,
            s,
            SearchEvent::Answered(Ok::<search::Answer, Error>(None)),
        ).1 matches ActionView::Done(list) && list.len() == 0),
{
    symbols::law_a_search_shows_what_was_reported(found@, s.limit);
    if s.state == StateView::Asking(id) {
        reveal(Seq::filter);
        let none = Seq::<(SymbolInformation, DiagnosticSnapshot)>::empty();
        match s.kind {
            Some(kind) => {
                let f = |x: (SymbolInformation, DiagnosticSnapshot)| symbols::workspace_symbol(x);
                assert(none.map_values(f).len() == 0);
            },
            None => {},
        }
    }
}

/// A search that fails hands on the error it met. That a server is still on its
/// way is told of the workspace's servers in general.
pub proof fn law_a_search_passes_errors_on(
    v: ServersView,
    s: SearchView,
    id: Seq<char>,
    e: Error,
)
    ensures
        s.state == StateView::Ensuring(id) && !(e.deep_view() is ServerInitializing)
            ==> search::search_step(v, s, SearchEvent::Ensured(Err::<(), Error>(e))).1
            == ActionView::Fail(e.deep_view()),
        s.state == StateView::Ensuring(id) && e.deep_view() is ServerInitializing
            ==> search::search_step(v, s, SearchEvent::Ensured(Err::<(), Error>(e))).1
            == ActionView::Fail(ErrorView::WorkspaceServersInitializing),
        s.state == StateView::Checking(id) ==> search::search_step(
            v,
            s,
            SearchEvent::Capable(Err::<(), Error>(e)),
        ).1 == ActionView::Fail(e.deep_view()),
        s.state == StateView::Asking(id) ==> search::search_step(
            v,
            s,
            SearchEvent::Answered(Err::<search::Answer, Error>(e)),
        ).1 == ActionView::Fail(e.deep_view()),
        search::search_step(v, s, SearchEvent::Ensured(Err::<(), Error>(e))).1 is Fail
            ==> search::search_step(v, s, SearchEvent::Ensured(Err::<(), Error>(e))).0.state
            == StateView::Over,
{
}

/// A search's parameters are in order exactly where its query is no longer than
/// it may be and its kind, if it names one, is known.
pub proof fn law_which_searches_are_in_order(query: Seq<char>, kind: Option<Seq<char>>)
    ensures
        symbols::symbol_params_error(query, kind) is None <==> vstd::utf8::encode_utf8(query).len()
            <= symbols::MAX_QUERY_LENGTH && (kind matches Some(k) ==> symbols::known_kind(k)),
        symbols::symbol_params_error(query, kind) matches Some(e) ==> e is InvalidToolParams,
{
    crate::encoding::law_bytes_are_utf8(query);
}

/// How much later one moment is than another is counted from the earlier one,
/// and is nothing where it is not later.
pub proof fn law_time_goes_forward(a: Instant, b: Instant, c: Instant)
    requires
        a <= b <= c,
    ensures
        clock::elapsed(b, a) + clock::elapsed(c, b) == clock::elapsed(c, a),
        clock::elapsed(a, b) == 0,
        clock::elapsed(b, a) == b - a,
{
}

/// A server that is passed over is left out from then on, and another is routed
/// to; nothing else changes which servers are left out, nor what is asked for.
pub proof fn law_a_passed_over_server_is_left_out(
    v: ServersView,
    s: SearchView,
    id: crate::config::ServerId,
    event: SearchEvent,
)
    ensures
        s.state == StateView::Routing && symbols::judged_candidate(v, Ok(id@))
            == CandidateView::Exclude ==> {
            let next = search::search_step(v, s, SearchEvent::Routed(Ok(id)));
            &&& next.0.excluded == s.excluded.push(id@)
            &&& next.0.state == StateView::Routing
            &&& next.1 == ActionView::Route
        },
        s.state == StateView::Routing && symbols::judged_candidate(v, Ok(id@))
            != CandidateView::Exclude ==> {
            let next = search::search_step(v, s, SearchEvent::Routed(Ok(id)));
            &&& next.0.state == StateView::Ensuring(id@)
            &&& next.1 == ActionView::Ensure(id@)
        },
        !(search::search_step(v, s, event).1 is Route) ==> search::search_step(v, s, event).0.excluded
            == s.excluded,
        search::search_step(v, s, event).0.query == s.query,
        search::search_step(v, s, event).0.kind == s.kind,
        search::search_step(v, s, event).0.limit == s.limit,
{
}

} // verus!
