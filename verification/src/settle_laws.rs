//! What holds of settling, whatever the servers report.

use crate::clock;
use crate::clock::{Duration, Instant};
use crate::settle;
use crate::settle::{ProgressView, SettleView, NO_PROGRESS_GRACE};
use vstd::prelude::*;

verus! {

/// Nothing outstanding.
pub open spec fn idle() -> Set<(Seq<char>, Seq<char>)> {
    Set::empty()
}

/// The work outstanding is what the servers' own tallies say, nothing is quiet
/// while work is outstanding, no gone server is an owner, and work that is
/// outstanding or seen has been counted.
pub open spec fn consistent(v: SettleView) -> bool {
    &&& forall|s: Seq<char>, t: Seq<char>| #[trigger]
        v.outstanding.contains((s, t)) <==> v.progress.dom().contains(s)
            && v.progress[s].outstanding.contains(t)
    &&& v.quiet_since is Some ==> v.outstanding == idle()
    &&& forall|s: Seq<char>|
        v.progress.dom().contains(s) && (#[trigger] v.progress[s]).quiet_since is Some
            ==> v.progress[s].outstanding == Set::<Seq<char>>::empty()
    &&& v.owners.disjoint(v.retired)
    &&& v.epoch == 0 ==> v.outstanding == idle()
}

/// A new tracker is consistent.
pub proof fn law_a_new_tracker_is_consistent(v: SettleView)
    requires
        v.outstanding == idle(),
        v.progress == Map::<Seq<char>, ProgressView>::empty(),
        v.owners == Set::<Seq<char>>::empty(),
    ensures
        consistent(v),
{
}

/// Beginning work keeps the tracker consistent.
pub proof fn law_begin_keeps_consistent(v: SettleView, server: Seq<char>, token: Seq<char>)
    requires
        consistent(v),
        v.epoch < u64::MAX,
    ensures
        consistent(settle::begun(v, server, token)),
{
    let after = settle::begun(v, server, token);
    assert forall|s: Seq<char>, t: Seq<char>| #[trigger]
        after.outstanding.contains((s, t)) <==> after.progress.dom().contains(s)
            && after.progress[s].outstanding.contains(t) by {
        assert(v.outstanding.contains((s, t)) <==> v.progress.dom().contains(s)
            && v.progress[s].outstanding.contains(t));
        assert(after.outstanding.contains((s, t)) <==> v.outstanding.contains((s, t)) || (s, t)
            == (server, token));
    }
}

/// Ending work keeps the tracker consistent.
pub proof fn law_end_keeps_consistent(
    v: SettleView,
    server: Seq<char>,
    token: Seq<char>,
    now: Instant,
)
    requires
        consistent(v),
    ensures
        consistent(settle::ended(v, server, token, now)),
{
    let after = settle::ended(v, server, token, now);
    if v.outstanding.contains((server, token)) {
        assert forall|s: Seq<char>, t: Seq<char>| #[trigger]
            after.outstanding.contains((s, t)) <==> after.progress.dom().contains(s)
                && after.progress[s].outstanding.contains(t) by {
            assert(v.outstanding.contains((s, t)) <==> v.progress.dom().contains(s)
                && v.progress[s].outstanding.contains(t));
        }
        if v.quiet_since is Some {
            assert(idle().contains((server, token)));
        }
        if v.epoch == 0 {
            assert(idle().contains((server, token)));
        }
        assert forall|s: Seq<char>|
            after.progress.dom().contains(s) && (#[trigger] after.progress[s]).quiet_since is Some
            implies after.progress[s].outstanding == Set::<Seq<char>>::empty() by {
            if s == server {
                assert(v.progress[s].outstanding.contains(token));
                if v.progress[s].quiet_since is Some {
                    assert(Set::<Seq<char>>::empty().contains(token));
                }
            } else {
                assert(after.progress[s] == v.progress[s]);
            }
        }
    }
}

/// Restarting the deadline keeps the tracker consistent.
pub proof fn law_restart_keeps_consistent(v: SettleView, limit: Duration, now: Instant)
    requires
        consistent(v),
    ensures
        consistent(settle::restarted(v, limit, now)),
{
    let after = settle::restarted(v, limit, now);
    assert forall|s: Seq<char>, t: Seq<char>| #[trigger]
        after.outstanding.contains((s, t)) <==> after.progress.dom().contains(s)
            && after.progress[s].outstanding.contains(t) by {
        assert(v.outstanding.contains((s, t)) <==> v.progress.dom().contains(s)
            && v.progress[s].outstanding.contains(t));
    }
    assert forall|s: Seq<char>|
        after.progress.dom().contains(s) && (#[trigger] after.progress[s]).quiet_since is Some
        implies after.progress[s].outstanding == Set::<Seq<char>>::empty() by {
        if v.progress.dom().contains(s) {
            assert(v.progress[s].quiet_since is Some ==> v.progress[s].outstanding == Set::<
                Seq<char>,
            >::empty());
        }
    }
}

/// Setting the owners keeps the tracker consistent.
pub proof fn law_owners_keep_consistent(v: SettleView, owners: Set<Seq<char>>)
    requires
        consistent(v),
    ensures
        consistent(settle::with_owners(v, owners)),
{
}

/// Replacing an owner keeps the tracker consistent.
pub proof fn law_replacement_keeps_consistent(v: SettleView, server: Seq<char>, now: Instant)
    requires
        consistent(v),
    ensures
        consistent(settle::replacement_begun(v, server)),
        consistent(settle::with_owner(v, server, now)),
{
    let after = settle::with_owner(v, server, now);
    assert forall|s: Seq<char>, t: Seq<char>| #[trigger]
        after.outstanding.contains((s, t)) <==> after.progress.dom().contains(s)
            && after.progress[s].outstanding.contains(t) by {
        assert(v.outstanding.contains((s, t)) <==> v.progress.dom().contains(s)
            && v.progress[s].outstanding.contains(t));
    }
    assert forall|s: Seq<char>|
        after.progress.dom().contains(s) && (#[trigger] after.progress[s]).quiet_since is Some
        implies after.progress[s].outstanding == Set::<Seq<char>>::empty() by {
        if v.progress.dom().contains(s) {
            assert(v.progress[s].quiet_since is Some ==> v.progress[s].outstanding == Set::<
                Seq<char>,
            >::empty());
        }
    }
}

/// Forgetting a server keeps the tracker consistent.
pub proof fn law_forget_keeps_consistent(v: SettleView, server: Seq<char>, now: Instant)
    requires
        consistent(v),
    ensures
        consistent(settle::forgotten(v, server, now)),
{
    let after = settle::forgotten(v, server, now);
    assert forall|s: Seq<char>, t: Seq<char>| #[trigger]
        after.outstanding.contains((s, t)) <==> after.progress.dom().contains(s)
            && after.progress[s].outstanding.contains(t) by {
        assert(v.outstanding.contains((s, t)) <==> v.progress.dom().contains(s)
            && v.progress[s].outstanding.contains(t));
    }
    assert forall|s: Seq<char>|
        after.progress.dom().contains(s) && (#[trigger] after.progress[s]).quiet_since is Some
        implies after.progress[s].outstanding == Set::<Seq<char>>::empty() by {
        assert(after.progress[s] == v.progress[s]);
    }
    if after.quiet_since is Some && v.quiet_since is Some {
        assert(after.outstanding =~= idle());
    }
    if v.epoch == 0 {
        assert(after.outstanding =~= idle());
    }
}

/// From the deadline on the workspace counts as analyzed, whatever is still
/// outstanding.
pub proof fn law_the_deadline_always_settles(v: SettleView, quiet_for: Duration, now: Instant)
    requires
        now >= v.deadline,
    ensures
        settle::settled(v, quiet_for, now),
{
}

/// An end without a beginning changes nothing: it starts no quiet period.
pub proof fn law_an_unmatched_end_changes_nothing(
    v: SettleView,
    server: Seq<char>,
    token: Seq<char>,
    now: Instant,
)
    requires
        !v.outstanding.contains((server, token)),
    ensures
        settle::ended(v, server, token, now) == v,
{
}

/// Before owners are set, the end of the last outstanding work settles the
/// workspace exactly after the debounce, measured from that end.
pub proof fn law_quiet_is_measured_from_the_last_end(
    v: SettleView,
    server: Seq<char>,
    token: Seq<char>,
    ended_at: Instant,
    quiet_for: Duration,
    now: Instant,
)
    requires
        consistent(v),
        !v.owners_installed,
        v.outstanding == idle().insert((server, token)),
        now < v.deadline,
    ensures
        settle::settled(settle::ended(v, server, token, ended_at), quiet_for, now) <==> clock::elapsed(
            now,
            ended_at,
        ) >= quiet_for,
{
    let after = settle::ended(v, server, token, ended_at);
    assert(v.outstanding.contains((server, token)));
    assert(v.outstanding.remove((server, token)) =~= idle());
    assert(v.epoch != 0) by {
        if v.epoch == 0 {
            assert(idle().contains((server, token)));
        }
    }
}

/// Once owners are set, the end of an owner's last outstanding work settles
/// that owner exactly after the debounce, measured from that end.
pub proof fn law_an_owner_is_quiet_from_its_last_end(
    v: SettleView,
    owner: Seq<char>,
    token: Seq<char>,
    ended_at: Instant,
    quiet_for: Duration,
    now: Instant,
)
    requires
        consistent(v),
        v.progress.dom().contains(owner),
        v.progress[owner].outstanding == Set::<Seq<char>>::empty().insert(token),
        v.progress[owner].progress_seen,
    ensures
        settle::owner_settled(settle::ended(v, owner, token, ended_at), owner, quiet_for, now)
            <==> clock::elapsed(now, ended_at) >= quiet_for,
{
    assert(v.progress[owner].outstanding.contains(token));
    assert(v.outstanding.contains((owner, token)));
    assert(v.progress[owner].outstanding.remove(token) =~= Set::<Seq<char>>::empty());
}

/// Work that begins puts off settling until the deadline: of the whole
/// workspace before owners are set, and afterwards where it is an owner's.
pub proof fn law_work_puts_off_settling(
    v: SettleView,
    server: Seq<char>,
    token: Seq<char>,
    quiet_for: Duration,
    now: Instant,
)
    requires
        !v.owners_installed || v.owners.contains(server),
        now < v.deadline,
    ensures
        !settle::settled(settle::begun(v, server, token), quiet_for, now),
{
    let after = settle::begun(v, server, token);
    if v.owners_installed {
        assert(after.owners.contains(server));
        assert(after.progress[server].quiet_since is None);
        assert(!settle::owner_settled(after, server, quiet_for, now));
    } else {
        assert(after.quiet_since is None);
    }
}

/// Once owners are set, the work of any other server delays nothing.
pub proof fn law_excluded_work_delays_nothing(
    v: SettleView,
    server: Seq<char>,
    token: Seq<char>,
    quiet_for: Duration,
    now: Instant,
)
    requires
        v.owners_installed,
        !v.owners.contains(server),
    ensures
        settle::settled(settle::begun(v, server, token), quiet_for, now) == settle::settled(
            v,
            quiet_for,
            now,
        ),
{
    let after = settle::begun(v, server, token);
    assert forall|owner: Seq<char>| #[trigger] v.owners.contains(owner) implies settle::owner_settled(
        after,
        owner,
        quiet_for,
        now,
    ) == settle::owner_settled(v, owner, quiet_for, now) by {
        assert(owner != server);
    }
    if settle::settled(v, quiet_for, now) && now < v.deadline {
        assert forall|owner: Seq<char>| #[trigger]
            after.owners.contains(owner) implies settle::owner_settled(
            after,
            owner,
            quiet_for,
            now,
        ) by {
            assert(v.owners.contains(owner));
        }
    }
    if settle::settled(after, quiet_for, now) && now < v.deadline {
        assert forall|owner: Seq<char>| #[trigger]
            v.owners.contains(owner) implies settle::owner_settled(v, owner, quiet_for, now) by {
            assert(after.owners.contains(owner));
        }
    }
}

/// Retiring a server leaves the other servers' work, their progress and the
/// count of what has begun as they were.
pub proof fn law_retirement_keeps_the_others(
    v: SettleView,
    server: Seq<char>,
    now: Instant,
    other: Seq<char>,
    token: Seq<char>,
)
    requires
        other != server,
    ensures
        settle::forgotten(v, server, now).outstanding.contains((other, token))
            == v.outstanding.contains((other, token)),
        settle::forgotten(v, server, now).progress.dom().contains(other)
            == v.progress.dom().contains(other),
        settle::progress_of(settle::forgotten(v, server, now), other) == settle::progress_of(
            v,
            other,
        ),
        settle::forgotten(v, server, now).epoch == v.epoch,
        !settle::forgotten(v, server, now).outstanding.contains((server, token)),
{
}

/// Two servers may use one token: ending it for one leaves the other's work
/// outstanding.
pub proof fn law_a_shared_token_is_two_pieces_of_work(
    v: SettleView,
    first: Seq<char>,
    second: Seq<char>,
    token: Seq<char>,
    now: Instant,
)
    requires
        first != second,
    ensures
        settle::ended(
            settle::begun(settle::begun(v, first, token), second, token),
            first,
            token,
            now,
        ).outstanding.contains((second, token)),
{
}

/// A restart spends none of the limit on what came before, and keeps a quiet
/// period that was already reached.
pub proof fn law_a_restart_gives_the_whole_limit(v: SettleView, limit: Duration, now: Instant)
    ensures
        settle::restarted(v, limit, now).deadline == now + limit,
        v.quiet_since is Some ==> settle::restarted(v, limit, now).quiet_since == v.quiet_since,
        settle::restarted(v, limit, now).outstanding == v.outstanding,
        settle::restarted(v, limit, now).epoch == v.epoch,
{
}

/// A workspace that never reports progress settles after the restart exactly
/// when the grace has passed, or at the deadline.
pub proof fn law_silence_settles_after_the_grace(
    v: SettleView,
    limit: Duration,
    restarted_at: Instant,
    quiet_for: Duration,
    now: Instant,
)
    requires
        v.outstanding == idle(),
        v.quiet_since is None,
        !v.owners_installed,
        v.epoch == 0,
        now < restarted_at + limit,
    ensures
        settle::settled(settle::restarted(v, limit, restarted_at), quiet_for, now)
            <==> clock::elapsed(now, restarted_at) >= NO_PROGRESS_GRACE,
{
}

/// Until it is restarted, a tracker that has heard nothing settles at its
/// deadline and not before; it counts as quiet at once.
pub proof fn law_a_silent_tracker_waits_for_the_deadline(
    v: SettleView,
    quiet_for: Duration,
    now: Instant,
    footer: Duration,
)
    requires
        v.outstanding == idle(),
        v.quiet_since is None,
        !v.owners_installed,
    ensures
        settle::settled(v, quiet_for, now) <==> now >= v.deadline,
        settle::quiet(v, now, footer),
{
}

/// A diagnostics owner that is being replaced keeps the workspace waiting from
/// the moment its replacement is announced, through its retirement, until it is
/// registered again.
pub proof fn law_a_replacement_is_waited_for(
    v: SettleView,
    owner: Seq<char>,
    retired_at: Instant,
    quiet_for: Duration,
    now: Instant,
)
    requires
        v.owners_installed,
        v.owners.contains(owner),
        now < v.deadline,
    ensures
        !settle::settled(settle::replacement_begun(v, owner), quiet_for, now),
        !settle::settled(
            settle::forgotten(settle::replacement_begun(v, owner), owner, retired_at),
            quiet_for,
            now,
        ),
        !settle::with_owner(
            settle::forgotten(settle::replacement_begun(v, owner), owner, retired_at),
            owner,
            now,
        ).pending.contains(owner),
{
    let announced = settle::replacement_begun(v, owner);
    let gone = settle::forgotten(announced, owner, retired_at);
    assert(announced.pending.contains(owner));
    assert(gone.pending.contains(owner));
}

/// An owner that retires without a replacement is no longer waited for.
pub proof fn law_a_retired_owner_is_not_waited_for(
    v: SettleView,
    owner: Seq<char>,
    retired_at: Instant,
)
    requires
        !v.replacing.contains(owner),
    ensures
        !settle::forgotten(v, owner, retired_at).owners.contains(owner),
        settle::forgotten(v, owner, retired_at).pending == v.pending,
{
}

/// Work that begins is counted once and belongs to its server; nothing else that
/// is outstanding, and no other server's progress, changes by it.
pub proof fn law_begun_work_is_counted(
    v: SettleView,
    server: Seq<char>,
    token: Seq<char>,
    other: (Seq<char>, Seq<char>),
)
    requires
        v.epoch < u64::MAX,
    ensures
        ({
            let after = settle::begun(v, server, token);
            &&& after.outstanding.contains((server, token))
            &&& other != (server, token) ==> after.outstanding.contains(other)
                == v.outstanding.contains(other)
            &&& after.epoch == v.epoch + 1
            &&& after.quiet_since is None
            &&& settle::progress_of(after, server).progress_seen
            &&& other.0 != server ==> settle::progress_of(after, other.0) == settle::progress_of(
                v,
                other.0,
            )
            &&& after.deadline == v.deadline
            &&& after.owners == v.owners
            &&& after.pending == v.pending
        }),
{
}

/// Work that ends is no longer outstanding; nothing else is touched by it. Quiet
/// begins where it was the last: of the server where it was the server's last,
/// of the workspace where it was the last of all.
pub proof fn law_ended_work_is_gone(
    v: SettleView,
    server: Seq<char>,
    token: Seq<char>,
    now: Instant,
    other: (Seq<char>, Seq<char>),
)
    requires
        consistent(v),
        v.outstanding.contains((server, token)),
    ensures
        ({
            let after = settle::ended(v, server, token, now);
            &&& !after.outstanding.contains((server, token))
            &&& other != (server, token) ==> after.outstanding.contains(other)
                == v.outstanding.contains(other)
            &&& other.0 != server ==> settle::progress_of(after, other.0) == settle::progress_of(
                v,
                other.0,
            )
            &&& after.quiet_since is Some <==> after.outstanding == idle()
            &&& after.outstanding == idle() ==> after.quiet_since == Some(now)
            &&& settle::progress_of(after, server).quiet_since is Some <==> settle::progress_of(
                after,
                server,
            ).outstanding == Set::<Seq<char>>::empty()
            &&& settle::progress_of(after, server).progress_seen == settle::progress_of(
                v,
                server,
            ).progress_seen
            &&& after.epoch == v.epoch
            &&& after.deadline == v.deadline
        }),
{
    assert(v.progress.dom().contains(server));
    assert(v.progress[server].outstanding.contains(token));
    if v.quiet_since is Some {
        assert(idle().contains((server, token)));
    }
    if v.progress[server].quiet_since is Some {
        assert(Set::<Seq<char>>::empty().contains(token));
    }
}

/// Once owners are set, the workspace settles before its deadline exactly where
/// no owner is about to be replaced and each of them has settled.
pub proof fn law_every_owner_must_settle(v: SettleView, quiet_for: Duration, now: Instant)
    requires
        v.owners_installed,
        now < v.deadline,
    ensures
        settle::settled(v, quiet_for, now) <==> (forall|s: Seq<char>|
            !#[trigger] v.pending.contains(s)) && (forall|s: Seq<char>| #[trigger]
            v.owners.contains(s) ==> settle::owner_settled(v, s, quiet_for, now)),
{
    if forall|s: Seq<char>| !#[trigger] v.pending.contains(s) {
        assert(v.pending =~= Set::<Seq<char>>::empty());
    }
}

/// An owner settles only once it has nothing outstanding and has been quiet for
/// long enough: for the grace where it never reported progress, for the debounce
/// where it did. One of which nothing is known does not settle.
pub proof fn law_when_an_owner_settles(
    v: SettleView,
    owner: Seq<char>,
    since: Instant,
    quiet_for: Duration,
    now: Instant,
)
    requires
        since <= now,
    ensures
        !v.progress.dom().contains(owner) ==> !settle::owner_settled(v, owner, quiet_for, now),
        v.progress.dom().contains(owner) && v.progress[owner].quiet_since is None
            ==> !settle::owner_settled(v, owner, quiet_for, now),
        v.progress.dom().contains(owner) && v.progress[owner].quiet_since == Some(since)
            && v.progress[owner].outstanding == Set::<Seq<char>>::empty() ==> (
        settle::owner_settled(v, owner, quiet_for, now) <==> now - since
            >= if v.progress[owner].progress_seen {
            quiet_for
        } else {
            NO_PROGRESS_GRACE
        }),
        v.progress.dom().contains(owner) && (exists|t: Seq<char>|
            v.progress[owner].outstanding.contains(t)) ==> !settle::owner_settled(
            v,
            owner,
            quiet_for,
            now,
        ),
{
}

/// A registered owner is waited for from then on: it is an owner, no longer gone
/// or about to be replaced, and its silence counts from its registration.
pub proof fn law_a_registered_owner_is_waited_for(
    v: SettleView,
    server: Seq<char>,
    registered: Instant,
    quiet_for: Duration,
    now: Instant,
    other: Seq<char>,
)
    requires
        registered <= now,
    ensures
        ({
            let after = settle::with_owner(v, server, registered);
            &&& after.owners.contains(server)
            &&& !after.retired.contains(server)
            &&& !after.replacing.contains(server)
            &&& !after.pending.contains(server)
            &&& !v.progress.dom().contains(server) ==> (settle::owner_settled(
                after,
                server,
                quiet_for,
                now,
            ) <==> now - registered >= NO_PROGRESS_GRACE)
            &&& other != server ==> {
                &&& after.owners.contains(other) == v.owners.contains(other)
                &&& after.pending.contains(other) == v.pending.contains(other)
                &&& settle::progress_of(after, other) == settle::progress_of(v, other)
            }
        }),
{
}

/// The owners that are set are those that are not gone. Of them those that are
/// gone, or about to be replaced, are waited for, and so are those that were
/// already.
pub proof fn law_which_owners_are_set(v: SettleView, owners: Set<Seq<char>>, server: Seq<char>)
    ensures
        ({
            let after = settle::with_owners(v, owners);
            &&& after.owners_installed
            &&& after.owners.contains(server) <==> owners.contains(server) && !v.retired.contains(
                server,
            )
            &&& after.pending.contains(server) <==> owners.contains(server) && (
            v.pending.contains(server) || v.retired.contains(server) || v.replacing.contains(
                server,
            ))
            &&& after.progress == v.progress
            &&& after.outstanding == v.outstanding
        }),
{
}

/// A restart stamps a first quiet moment for every owner that is quiet and has
/// none, and leaves every other server's progress as it was.
pub proof fn law_a_restart_stamps_the_owners(
    v: SettleView,
    limit: Duration,
    now: Instant,
    server: Seq<char>,
)
    ensures
        ({
            let after = settle::restarted(v, limit, now);
            let before = settle::progress_of(v, server);
            &&& v.owners.contains(server) && before.outstanding == Set::<Seq<char>>::empty()
                && before.quiet_since is None ==> settle::progress_of(after, server).quiet_since
                == Some(now)
            &&& !v.owners.contains(server) || before.quiet_since is Some || before.outstanding
                != Set::<Seq<char>>::empty() ==> settle::progress_of(after, server) == before
            &&& after.owners == v.owners
            &&& after.pending == v.pending
        }),
{
}

/// The workspace is quiet where nothing is outstanding and the last work ended
/// long enough ago.
pub proof fn law_when_the_workspace_is_quiet(
    v: SettleView,
    since: Instant,
    now: Instant,
    quiet_for: Duration,
)
    requires
        since <= now,
        v.quiet_since == Some(since),
    ensures
        settle::quiet(v, now, quiet_for) <==> v.outstanding == idle() && now - since >= quiet_for,
{
}

/// Forgetting a server whose work was the last begins a quiet moment; where
/// other work is outstanding it begins none.
pub proof fn law_forgetting_the_last_work_is_quiet(
    v: SettleView,
    server: Seq<char>,
    now: Instant,
    token: Seq<char>,
    other: (Seq<char>, Seq<char>),
)
    requires
        consistent(v),
        v.outstanding.contains((server, token)),
    ensures
        ({
            let after = settle::forgotten(v, server, now);
            &&& (forall|w: (Seq<char>, Seq<char>)| #[trigger]
                v.outstanding.contains(w) ==> w.0 == server) ==> after.quiet_since == Some(now)
            &&& other.0 != server && v.outstanding.contains(other) ==> after.quiet_since is None
            &&& !after.owners.contains(server)
            &&& after.retired.contains(server)
        }),
{
    let after = settle::forgotten(v, server, now);
    let left = settle::work_of_others(v.outstanding, server);
    if v.quiet_since is Some {
        assert(idle().contains((server, token)));
    }
    if forall|w: (Seq<char>, Seq<char>)| #[trigger] v.outstanding.contains(w) ==> w.0 == server {
        assert(left =~= idle());
        assert(!left.contains((server, token)));
    }
    if other.0 != server && v.outstanding.contains(other) {
        assert(left.contains(other));
        if left == idle() {
            assert(idle().contains(other));
        }
    }
}

/// An owner that goes while its replacement is announced is waited for; any
/// other server that goes changes nothing of who is waited for.
pub proof fn law_who_is_waited_for_after_a_server_went(
    v: SettleView,
    server: Seq<char>,
    now: Instant,
    other: Seq<char>,
)
    ensures
        ({
            let after = settle::forgotten(v, server, now);
            &&& after.pending.contains(server) <==> v.pending.contains(server) || (
            v.owners.contains(server) && v.replacing.contains(server))
            &&& other != server ==> after.pending.contains(other) == v.pending.contains(other)
            &&& other != server ==> after.owners.contains(other) == v.owners.contains(other)
            &&& after.replacing == v.replacing
        }),
{
}

} // verus!
