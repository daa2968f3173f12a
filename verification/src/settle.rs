//! Tracks whether the language servers have finished their startup work.
//!
//! Every server reports long-running work as it begins and ends. Quiet is not
//! the first moment at which nothing is outstanding: startup phases hand off
//! to each other through short gaps, and the first of those gaps arrives
//! before indexing has begun. Quiet is nothing outstanding for a while.
//!
//! A deadline bounds what neither the count nor the wait can see: a
//! notification that was dropped. A server that reports no progress at all is
//! not this case: restarting the deadline also stamps its first quiet moment,
//! so it settles once a grace of its own has passed.

use crate::clock;
use crate::clock::{duration_since, Duration, Instant};
use crate::config::ServerId;
use crate::table;
use crate::table::{Key, KeySet, Table};
use vstd::prelude::*;

verus! {

/// How long a server that has never reported any progress is given, once
/// [`ServerSettle::restart_deadline`] runs, before its silence counts as having
/// nothing to report: two seconds.
pub const NO_PROGRESS_GRACE: Duration = 2_000_000_000;

/// The progress of one server.
pub struct ServerProgress {
    outstanding: KeySet<String>,
    quiet_since: Option<Instant>,
    progress_seen: bool,
}

/// What a [`ServerProgress`] stands for.
#[verifier::ext_equal]
pub struct ProgressView {
    /// The tokens of the work that has begun and not ended.
    pub outstanding: Set<Seq<char>>,
    /// When the last of it ended.
    pub quiet_since: Option<Instant>,
    /// Whether any has ever begun.
    pub progress_seen: bool,
}

impl DeepView for ServerProgress {
    type V = ProgressView;

    closed spec fn deep_view(&self) -> ProgressView {
        ProgressView {
            outstanding: self.outstanding@,
            quiet_since: self.quiet_since,
            progress_seen: self.progress_seen,
        }
    }
}

/// What a [`ServerSettle`] stands for.
#[verifier::ext_equal]
pub struct SettleView {
    /// The work that has begun and not ended, with the server it belongs to.
    pub outstanding: Set<(Seq<char>, Seq<char>)>,
    /// What each server has reported.
    pub progress: Map<Seq<char>, ProgressView>,
    /// The servers whose startup silence needs its own grace.
    pub owners: Set<Seq<char>>,
    /// Whether those have been set.
    pub owners_installed: bool,
    /// The owners that are gone and about to be replaced.
    pub pending: Set<Seq<char>>,
    /// The servers that are being replaced.
    pub replacing: Set<Seq<char>>,
    /// The servers that are gone.
    pub retired: Set<Seq<char>>,
    /// When nothing was last left outstanding.
    pub quiet_since: Option<Instant>,
    /// When the wait ends regardless of what the servers have said.
    pub deadline: int,
    /// How many operations have ever begun.
    pub epoch: u64,
}

/// A server that has reported nothing.
pub open spec fn no_progress() -> ProgressView {
    ProgressView { outstanding: Set::empty(), quiet_since: None, progress_seen: false }
}

/// What a server has reported.
pub open spec fn progress_of(v: SettleView, server: Seq<char>) -> ProgressView {
    if v.progress.dom().contains(server) {
        v.progress[server]
    } else {
        no_progress()
    }
}

/// A first quiet moment for a server that is quiet and has none.
pub open spec fn stamped(p: ProgressView, now: Instant) -> ProgressView {
    if p.outstanding == Set::<Seq<char>>::empty() && p.quiet_since is None {
        ProgressView { quiet_since: Some(now), ..p }
    } else {
        p
    }
}

/// The owners that were set, as of now.
pub open spec fn with_owners(v: SettleView, owners: Set<Seq<char>>) -> SettleView {
    SettleView {
        pending: v.pending.intersect(owners).union(
            owners.intersect(v.retired.union(v.replacing)),
        ),
        owners: owners.difference(v.retired),
        owners_installed: true,
        ..v
    }
}

/// One owner back after its replacement.
pub open spec fn with_owner(v: SettleView, server: Seq<char>, now: Instant) -> SettleView {
    SettleView {
        retired: v.retired.remove(server),
        pending: v.pending.remove(server),
        replacing: v.replacing.remove(server),
        owners: v.owners.insert(server),
        progress: v.progress.insert(server, stamped(progress_of(v, server), now)),
        ..v
    }
}

/// One server about to be replaced.
pub open spec fn replacement_begun(v: SettleView, server: Seq<char>) -> SettleView {
    SettleView {
        replacing: v.replacing.insert(server),
        pending: if v.owners.contains(server) {
            v.pending.insert(server)
        } else {
            v.pending
        },
        ..v
    }
}

/// The deadline measured from now.
pub open spec fn restarted(v: SettleView, deadline_after: Duration, now: Instant) -> SettleView {
    SettleView {
        deadline: now + deadline_after,
        quiet_since: if v.outstanding == Set::<(Seq<char>, Seq<char>)>::empty()
            && v.quiet_since is None {
            Some(now)
        } else {
            v.quiet_since
        },
        progress: Map::new(
            |s: Seq<char>| v.progress.dom().contains(s) || v.owners.contains(s),
            |s: Seq<char>|
                if v.owners.contains(s) {
                    stamped(progress_of(v, s), now)
                } else {
                    v.progress[s]
                },
        ),
        ..v
    }
}

/// Work begun.
pub open spec fn begun(v: SettleView, server: Seq<char>, token: Seq<char>) -> SettleView {
    SettleView {
        outstanding: v.outstanding.insert((server, token)),
        progress: v.progress.insert(
            server,
            ProgressView {
                outstanding: progress_of(v, server).outstanding.insert(token),
                quiet_since: None,
                progress_seen: true,
            },
        ),
        quiet_since: None,
        epoch: (v.epoch + 1) as u64,
        ..v
    }
}

/// Work ended. An end without a beginning changes nothing.
pub open spec fn ended(
    v: SettleView,
    server: Seq<char>,
    token: Seq<char>,
    now: Instant,
) -> SettleView {
    if !v.outstanding.contains((server, token)) {
        v
    } else {
        let left = v.outstanding.remove((server, token));
        let own = progress_of(v, server).outstanding.remove(token);
        SettleView {
            outstanding: left,
            progress: if v.progress.dom().contains(server) {
                v.progress.insert(
                    server,
                    ProgressView {
                        outstanding: own,
                        quiet_since: if own == Set::<Seq<char>>::empty() {
                            Some(now)
                        } else {
                            v.progress[server].quiet_since
                        },
                        progress_seen: v.progress[server].progress_seen,
                    },
                )
            } else {
                v.progress
            },
            quiet_since: if left == Set::<(Seq<char>, Seq<char>)>::empty() {
                Some(now)
            } else {
                v.quiet_since
            },
            ..v
        }
    }
}

/// The work of every server but one.
pub open spec fn work_of_others(
    outstanding: Set<(Seq<char>, Seq<char>)>,
    server: Seq<char>,
) -> Set<(Seq<char>, Seq<char>)> {
    outstanding.filter(|w: (Seq<char>, Seq<char>)| w.0 != server)
}

/// An exited server's work retired.
pub open spec fn forgotten(v: SettleView, server: Seq<char>, now: Instant) -> SettleView {
    let left = work_of_others(v.outstanding, server);
    SettleView {
        outstanding: left,
        quiet_since: if left != v.outstanding && left == Set::<
            (Seq<char>, Seq<char>),
        >::empty() {
            Some(now)
        } else {
            v.quiet_since
        },
        progress: v.progress.remove(server),
        owners: v.owners.remove(server),
        pending: if v.owners.contains(server) && v.replacing.contains(server) {
            v.pending.insert(server)
        } else {
            v.pending
        },
        retired: v.retired.insert(server),
        ..v
    }
}

/// Whether nothing has been outstanding for `quiet_for`.
pub open spec fn quiet(v: SettleView, now: Instant, quiet_for: Duration) -> bool {
    &&& v.outstanding == Set::<(Seq<char>, Seq<char>)>::empty()
    &&& match v.quiet_since {
        Some(since) => clock::elapsed(now, since) >= quiet_for,
        None => true,
    }
}

/// Whether one owner has finished its startup work.
pub open spec fn owner_settled(
    v: SettleView,
    owner: Seq<char>,
    quiet_for: Duration,
    now: Instant,
) -> bool {
    &&& v.progress.dom().contains(owner)
    &&& v.progress[owner].outstanding == Set::<Seq<char>>::empty()
    &&& match v.progress[owner].quiet_since {
        Some(since) => clock::elapsed(now, since) >= if v.progress[owner].progress_seen {
            quiet_for
        } else {
            NO_PROGRESS_GRACE
        },
        None => false,
    }
}

/// Whether the workspace counts as analyzed.
pub open spec fn settled(v: SettleView, quiet_for: Duration, now: Instant) -> bool {
    ||| now >= v.deadline
    ||| if v.owners_installed {
        &&& v.pending == Set::<Seq<char>>::empty()
        &&& forall|owner: Seq<char>| #[trigger]
            v.owners.contains(owner) ==> owner_settled(v, owner, quiet_for, now)
    } else {
        &&& v.outstanding == Set::<(Seq<char>, Seq<char>)>::empty()
        &&& match v.quiet_since {
            Some(since) => clock::elapsed(now, since) >= if v.epoch == 0 {
                NO_PROGRESS_GRACE
            } else {
                quiet_for
            },
            None => false,
        }
    }
}

/// Outstanding operations across every server.
pub struct ServerSettle {
    outstanding: KeySet<(ServerId, String)>,
    server_progress: Table<ServerId, ServerProgress>,
    diagnostics_owners: KeySet<ServerId>,
    owners_installed: bool,
    pending_owners: KeySet<ServerId>,
    replacement_pending: KeySet<ServerId>,
    retired_servers: KeySet<ServerId>,
    quiet_since: Option<Instant>,
    deadline: u128,
    epoch: u64,
    quiet_for: Duration,
    deadline_after: Duration,
}

impl View for ServerSettle {
    type V = SettleView;

    closed spec fn view(&self) -> SettleView {
        SettleView {
            outstanding: self.outstanding@,
            progress: self.server_progress@,
            owners: self.diagnostics_owners@,
            owners_installed: self.owners_installed,
            pending: self.pending_owners@,
            replacing: self.replacement_pending@,
            retired: self.retired_servers@,
            quiet_since: self.quiet_since,
            deadline: self.deadline as int,
            epoch: self.epoch,
        }
    }
}

impl ServerProgress {
    fn dup(&self) -> (r: Self)
        ensures
            r.deep_view() == self.deep_view(),
    {
        ServerProgress {
            outstanding: self.outstanding.dup(),
            quiet_since: self.quiet_since,
            progress_seen: self.progress_seen,
        }
    }

    fn stamp(&mut self, now: Instant)
        ensures
            final(self).deep_view() == stamped(old(self).deep_view(), now),
    {
        if self.outstanding.is_empty() && self.quiet_since.is_none() {
            self.quiet_since = Some(now);
        }
    }
}

/// The members of `a` that are in `b`, or, unless `keep`, those that are not.
fn shared(a: &KeySet<ServerId>, b: &KeySet<ServerId>, keep: bool) -> (r: KeySet<ServerId>)
    ensures
        keep ==> r@ == a@.intersect(b@),
        !keep ==> r@ == a@.difference(b@),
{
    let mut r: KeySet<ServerId> = KeySet::new();
    let n: usize = a.len();
    let ghost items = a.items();
    let mut i: usize = 0;
    while i < n
        invariant
            i <= n,
            n == items.len(),
            items == a.items(),
            forall|s: Seq<char>| #[trigger]
                r@.contains(s) <==> items.take(i as int).contains(s) && b@.contains(s) == keep,
        decreases n - i,
    {
        let item = a.item_at(i);
        let ghost name = items[i as int];
        let ghost before = r@;
        if b.has(item) == keep {
            r.add(item.dup());
        }
        i = i + 1;
        proof {
            let taken = items.take(i as int);
            assert(taken =~= items.take(i - 1).push(name));
            assert forall|s: Seq<char>| #[trigger] r@.contains(s) <==> taken.contains(s)
                && b@.contains(s) == keep by {
                table::lemma_push_contains(items.take(i - 1), name, s);
            }
        }
    }
    proof {
        assert(items.take(i as int) =~= items);
        if keep {
            assert(r@ =~= a@.intersect(b@));
        } else {
            assert(r@ =~= a@.difference(b@));
        }
    }
    r
}

fn add_all(into: &mut KeySet<ServerId>, from: &KeySet<ServerId>)
    ensures
        final(into)@ == old(into)@.union(from@),
{
    let ghost start = into@;
    let n: usize = from.len();
    let ghost items = from.items();
    let mut i: usize = 0;
    assert(into@ =~= start.union(items.take(0).to_set()));
    while i < n
        invariant
            i <= n,
            n == items.len(),
            items == from.items(),
            into@ == start.union(items.take(i as int).to_set()),
        decreases n - i,
    {
        into.add(from.item_at(i).dup());
        i = i + 1;
        proof {
            let taken = items.take(i as int);
            assert(taken =~= items.take(i - 1).push(items[i - 1]));
            assert forall|s: Seq<char>| #[trigger] into@.contains(s) <==> start.union(
                taken.to_set(),
            ).contains(s) by {
                table::lemma_push_contains(items.take(i - 1), items[i - 1], s);
            }
            assert(into@ =~= start.union(taken.to_set()));
        }
    }
    assert(items.take(i as int) =~= items);
}

impl ServerSettle {
    /// How long nothing must have been outstanding.
    pub closed spec fn debounce(self) -> Duration {
        self.quiet_for
    }

    /// How long the wait lasts at most.
    pub closed spec fn limit(self) -> Duration {
        self.deadline_after
    }

    /// Track settling with a `quiet_for` debounce, giving up after
    /// `deadline_after`.
    ///
    /// The deadline runs from construction; [`Self::restart_deadline`] moves
    /// it to cover the work it is meant to bound.
    pub fn new(quiet_for: Duration, deadline_after: Duration, now: Instant) -> (r: Self)
        ensures
            r.debounce() == quiet_for,
            r.limit() == deadline_after,
            r@ == (SettleView {
                outstanding: Set::empty(),
                progress: Map::empty(),
                owners: Set::empty(),
                owners_installed: false,
                pending: Set::empty(),
                replacing: Set::empty(),
                retired: Set::empty(),
                quiet_since: None,
                deadline: now + deadline_after,
                epoch: 0,
            }),
    {
        ServerSettle {
            outstanding: KeySet::new(),
            server_progress: Table::new(),
            diagnostics_owners: KeySet::new(),
            owners_installed: false,
            pending_owners: KeySet::new(),
            replacement_pending: KeySet::new(),
            retired_servers: KeySet::new(),
            quiet_since: None,
            deadline: now as u128 + deadline_after as u128,
            epoch: 0,
            quiet_for,
            deadline_after,
        }
    }

    /// Set the diagnostics owners whose startup silence needs its own grace.
    pub fn set_diagnostics_owners(&mut self, owners: Vec<ServerId>)
        ensures
            final(self)@ == with_owners(old(self)@, owners.deep_view().to_set()),
            final(self).debounce() == old(self).debounce(),
            final(self).limit() == old(self).limit(),
    {
        let ghost all = owners.deep_view();
        let ghost v = self@;
        let mut named: KeySet<ServerId> = KeySet::new();
        let mut i: usize = 0;
        assert(named@ =~= all.take(0).to_set());
        while i < owners.len()
            invariant
                i <= owners.len(),
                all == owners.deep_view(),
                named@ == all.take(i as int).to_set(),
            decreases owners.len() - i,
        {
            named.add(owners[i].dup());
            i = i + 1;
            proof {
                let taken = all.take(i as int);
                assert(taken =~= all.take(i - 1).push(all[i - 1]));
                assert forall|s: Seq<char>| #[trigger] named@.contains(s)
                    <==> taken.to_set().contains(s) by {
                    table::lemma_push_contains(all.take(i - 1), all[i - 1], s);
                }
                assert(named@ =~= taken.to_set());
            }
        }
        assert(all.take(i as int) =~= all);
        let mut pending = shared(&self.pending_owners, &named, true);
        let gone = shared(&named, &self.retired_servers, true);
        let leaving = shared(&named, &self.replacement_pending, true);
        add_all(&mut pending, &gone);
        add_all(&mut pending, &leaving);
        let present = shared(&named, &self.retired_servers, false);
        self.pending_owners = pending;
        self.diagnostics_owners = present;
        self.owners_installed = true;
        proof {
            let target = with_owners(v, all.to_set());
            assert(self@.pending =~= target.pending);
            assert(self@ =~= target);
        }
    }

    /// Re-install a diagnostics owner after a server replacement completed.
    pub fn register_diagnostics_owner(&mut self, server: &ServerId, now: Instant)
        ensures
            final(self)@ == with_owner(old(self)@, server@, now),
            final(self).debounce() == old(self).debounce(),
            final(self).limit() == old(self).limit(),
    {
        self.retired_servers.remove(server);
        self.pending_owners.remove(server);
        self.replacement_pending.remove(server);
        self.diagnostics_owners.add(server.dup());
        let mut progress = self.progress(server);
        progress.stamp(now);
        self.server_progress.put(server.dup(), progress);
    }

    /// What `server` has reported.
    fn progress(&self, server: &ServerId) -> (r: ServerProgress)
        ensures
            r.deep_view() == progress_of(self@, server@),
    {
        match self.server_progress.get(server) {
            Some(progress) => progress.dup(),
            None => ServerProgress {
                outstanding: KeySet::new(),
                quiet_since: None,
                progress_seen: false,
            },
        }
    }

    /// Keep a retiring diagnostics owner in the startup wait until its
    /// replacement is installed.
    pub fn begin_diagnostics_replacement(&mut self, server: &ServerId)
        ensures
            final(self)@ == replacement_begun(old(self)@, server@),
            final(self).debounce() == old(self).debounce(),
            final(self).limit() == old(self).limit(),
    {
        self.replacement_pending.add(server.dup());
        if self.diagnostics_owners.has(server) {
            self.pending_owners.add(server.dup());
        }
    }

    /// Measure the deadline from `now` instead of from construction.
    ///
    /// Callers restart the clock once the servers exist. Nothing is
    /// outstanding yet at this point, so if nothing has been stamped either,
    /// this counts as the first quiet moment, both of the workspace and of
    /// every diagnostics owner.
    pub fn restart_deadline(&mut self, now: Instant)
        ensures
            final(self)@ == restarted(old(self)@, old(self).limit(), now),
            final(self).debounce() == old(self).debounce(),
            final(self).limit() == old(self).limit(),
    {
        let ghost v = self@;
        self.deadline = now as u128 + self.deadline_after as u128;
        if self.outstanding.is_empty() && self.quiet_since.is_none() {
            self.quiet_since = Some(now);
        }
        let ghost start = self@;
        let ghost owners = self.diagnostics_owners.items();
        let n: usize = self.diagnostics_owners.len();
        let mut i: usize = 0;
        while i < n
            invariant
                i <= n,
                n == owners.len(),
                owners == self.diagnostics_owners.items(),
                self.quiet_for == old(self).quiet_for,
                self.deadline_after == old(self).deadline_after,
                self@ == (SettleView { progress: self@.progress, ..start }),
                start.progress == v.progress,
                forall|s: Seq<char>|
                    #![trigger self@.progress.dom().contains(s)]
                    self@.progress.dom().contains(s) <==> v.progress.dom().contains(s)
                        || owners.take(i as int).contains(s),
                forall|s: Seq<char>|
                    #![trigger self@.progress[s]]
                    owners.take(i as int).contains(s) ==> self@.progress[s] == stamped(
                        progress_of(v, s),
                        now,
                    ),
                forall|s: Seq<char>|
                    #![trigger self@.progress[s]]
                    !owners.take(i as int).contains(s) && v.progress.dom().contains(s)
                        ==> self@.progress[s] == v.progress[s],
            decreases n - i,
        {
            let owner = self.diagnostics_owners.item_at(i).dup();
            let ghost name = owners[i as int];
            let ghost before = self@.progress;
            let mut progress = self.progress(&owner);
            progress.stamp(now);
            proof {
                if owners.take(i as int).contains(name) {
                    assert(progress_of(self@, name) == before[name]);
                } else {
                    assert(progress_of(self@, name) == progress_of(v, name));
                }
            }
            self.server_progress.put(owner, progress);
            i = i + 1;
            proof {
                let taken = owners.take(i as int);
                assert(taken =~= owners.take(i - 1).push(name));
                assert forall|s: Seq<char>|
                    taken.contains(s) <==> owners.take(i - 1).contains(s) || s == name by {
                    table::lemma_push_contains(owners.take(i - 1), name, s);
                }
                assert(stamped(stamped(progress_of(v, name), now), now) == stamped(
                    progress_of(v, name),
                    now,
                ));
            }
        }
        proof {
            assert(owners.take(i as int) =~= owners);
            let target = restarted(v, self.deadline_after, now);
            assert forall|s: Seq<char>| v.owners.contains(s) <==> owners.contains(s) by {}
            assert(self@.progress.dom() =~= target.progress.dom());
            assert(self@.progress =~= target.progress);
        }
    }

    /// Record that `server` started a long-running operation.
    ///
    /// Takes no instant: starting work only clears the quiet stamp and counts.
    pub fn begin(&mut self, server: &ServerId, token: &String)
        requires
            old(self)@.epoch < u64::MAX,
        ensures
            final(self)@ == begun(old(self)@, server@, token@),
            final(self).debounce() == old(self).debounce(),
            final(self).limit() == old(self).limit(),
    {
        self.outstanding.add((server.dup(), token.clone()));
        let mut progress = self.progress(server);
        progress.outstanding.add(token.clone());
        progress.progress_seen = true;
        progress.quiet_since = None;
        self.server_progress.put(server.dup(), progress);
        self.quiet_since = None;
        self.epoch = self.epoch + 1;
    }

    /// Record that `server` finished one, as of `now`.
    pub fn end_at(&mut self, server: &ServerId, token: &String, now: Instant)
        ensures
            final(self)@ == ended(old(self)@, server@, token@, now),
            final(self).debounce() == old(self).debounce(),
            final(self).limit() == old(self).limit(),
    {
        let work = (server.dup(), token.clone());
        if !self.outstanding.has(&work) {
            return;
        }
        self.outstanding.remove(&work);
        if self.server_progress.has(server) {
            let mut progress = self.progress(server);
            progress.outstanding.remove(token);
            if progress.outstanding.is_empty() {
                progress.quiet_since = Some(now);
            }
            self.server_progress.put(server.dup(), progress);
        }
        if self.outstanding.is_empty() {
            self.quiet_since = Some(now);
        }
    }

    /// The outstanding work of every server but one.
    fn others_work(&self, server: &ServerId) -> (r: KeySet<(ServerId, String)>)
        ensures
            r@ == work_of_others(self@.outstanding, server@),
    {
        let mut r: KeySet<(ServerId, String)> = KeySet::new();
        let n: usize = self.outstanding.len();
        let ghost items = self.outstanding.items();
        let mut i: usize = 0;
        while i < n
            invariant
                i <= n,
                n == items.len(),
                items == self.outstanding.items(),
                forall|w: (Seq<char>, Seq<char>)| #[trigger]
                    r@.contains(w) <==> items.take(i as int).contains(w) && w.0 != server@,
            decreases n - i,
        {
            let item = self.outstanding.item_at(i);
            let ghost work = items[i as int];
            if !item.0.same(server) {
                r.add(item.dup());
            }
            i = i + 1;
            proof {
                let taken = items.take(i as int);
                assert(taken =~= items.take(i - 1).push(work));
                assert forall|w: (Seq<char>, Seq<char>)| #[trigger] r@.contains(w)
                    <==> taken.contains(w) && w.0 != server@ by {
                    table::lemma_push_contains(items.take(i - 1), work, w);
                }
            }
        }
        proof {
            assert(items.take(i as int) =~= items);
            assert(r@ =~= work_of_others(self@.outstanding, server@));
        }
        r
    }

    /// Retire outstanding work owned by an exited server, as of `now`, without
    /// resetting the session.
    pub fn forget_server(&mut self, server: &ServerId, now: Instant)
        ensures
            final(self)@ == forgotten(old(self)@, server@, now),
            final(self).debounce() == old(self).debounce(),
            final(self).limit() == old(self).limit(),
    {
        let before: usize = self.outstanding.len();
        let left = self.others_work(server);
        proof {
            let all = self@.outstanding;
            assert(left@.subset_of(all));
            if left@.len() == all.len() {
                vstd::set_lib::lemma_subset_equality(left@, all);
            }
        }
        if left.len() != before && left.is_empty() {
            self.quiet_since = Some(now);
        }
        self.outstanding = left;
        let _ = self.server_progress.take(server);
        let was_owner = self.diagnostics_owners.has(server);
        self.diagnostics_owners.remove(server);
        if was_owner && self.replacement_pending.has(server) {
            self.pending_owners.add(server.dup());
        }
        self.retired_servers.add(server.dup());
    }

    /// How many long-running operations have ever begun.
    pub fn progress_epoch(&self) -> (r: u64)
        ensures
            r == self@.epoch,
    {
        self.epoch
    }

    /// Whether nothing has been outstanding for `quiet_for` as of `now`.
    ///
    /// There is no deadline, and a workspace that has never reported any
    /// progress counts as quiet immediately.
    pub fn is_quiet_at(&self, now: Instant, quiet_for: Duration) -> (r: bool)
        ensures
            r == quiet(self@, now, quiet_for),
    {
        self.outstanding.is_empty() && match self.quiet_since {
            Some(since) => duration_since(now, since) >= quiet_for,
            None => true,
        }
    }

    fn is_owner_settled(&self, owner: &ServerId, now: Instant) -> (r: bool)
        ensures
            r == owner_settled(self@, owner@, self.debounce(), now),
    {
        match self.server_progress.get(owner) {
            None => false,
            Some(progress) => {
                if !progress.outstanding.is_empty() {
                    return false;
                }
                match progress.quiet_since {
                    None => false,
                    Some(since) => {
                        let required: Duration = if progress.progress_seen {
                            self.quiet_for
                        } else {
                            NO_PROGRESS_GRACE
                        };
                        duration_since(now, since) >= required
                    },
                }
            },
        }
    }

    /// Whether the workspace counts as analyzed as of `now`.
    ///
    /// A quiet stamp from a real end needs only the debounce to elapse. One
    /// from [`Self::restart_deadline`], on a server that has never begun any
    /// work, needs [`NO_PROGRESS_GRACE`] instead.
    pub fn should_settle_at(&self, now: Instant) -> (r: bool)
        ensures
            r == settled(self@, self.debounce(), now),
    {
        if now as u128 >= self.deadline {
            return true;
        }
        if !self.owners_installed {
            if !self.outstanding.is_empty() {
                return false;
            }
            return match self.quiet_since {
                None => false,
                Some(since) => {
                    let required: Duration = if self.epoch == 0 {
                        NO_PROGRESS_GRACE
                    } else {
                        self.quiet_for
                    };
                    duration_since(now, since) >= required
                },
            };
        }
        if !self.pending_owners.is_empty() {
            return false;
        }
        let n: usize = self.diagnostics_owners.len();
        let ghost owners = self.diagnostics_owners.items();
        let mut i: usize = 0;
        while i < n
            invariant
                i <= n,
                n == owners.len(),
                owners == self.diagnostics_owners.items(),
                self.owners_installed,
                now < self.deadline,
                forall|j: int|
                    0 <= j < i ==> owner_settled(
                        self@,
                        #[trigger] owners[j],
                        self.debounce(),
                        now,
                    ),
            decreases n - i,
        {
            let owner = self.diagnostics_owners.item_at(i);
            if !self.is_owner_settled(owner, now) {
                assert(self@.owners.contains(owners[i as int]));
                return false;
            }
            i = i + 1;
        }
        proof {
            assert forall|owner: Seq<char>| #[trigger]
                self@.owners.contains(owner) implies owner_settled(
                self@,
                owner,
                self.debounce(),
                now,
            ) by {
                let j = choose|j: int| 0 <= j < owners.len() && owners[j] == owner;
                assert(owner_settled(self@, owners[j], self.debounce(), now));
            }
        }
        true
    }
}

} // verus!
