//! How long a delivery record lives: while a connection protects it, and a
//! grace beyond its last activity.

use crate::clock::Instant;
use crate::delivery::DiagnosticsDelivery;
use crate::identity::{dup_session, Caller, ConnectionId, RecordId, RecordView, SessionId};
use crate::ledger;
use crate::ledger::{LifeView, LifetimeView};
use crate::soundness;
use crate::table;
use crate::table::{Key, KeySet, Table};
use vstd::prelude::*;

verus! {

/// What is known of one record's activity.
pub struct Life {
    /// The record's root, when known.
    pub root: Option<SessionId>,
    /// The last activity while nothing protected the record.
    pub last_unprotected_activity: Instant,
    /// Whether its root has ended.
    pub ended: bool,
}

impl DeepView for Life {
    type V = LifeView;

    open spec fn deep_view(&self) -> LifeView {
        LifeView {
            root: self.root.deep_view(),
            last: self.last_unprotected_activity,
            ended: self.ended,
        }
    }
}

/// Which records are alive, and which connections keep them so.
pub struct RecordLifetime {
    /// How long an unprotected record stays, in milliseconds.
    pub grace_ms: u64,
    /// The records.
    pub records: Table<RecordId, Life>,
    /// The records each open connection speaks for.
    pub connections: Table<ConnectionId, KeySet<RecordId>>,
    /// Roots that have ended.
    pub ended_roots: KeySet<SessionId>,
}

impl DeepView for RecordLifetime {
    type V = LifetimeView;

    open spec fn deep_view(&self) -> LifetimeView {
        LifetimeView {
            grace_ms: self.grace_ms,
            records: self.records@,
            connections: self.connections@,
            ended_roots: self.ended_roots@,
        }
    }
}

/// Whether a connection that speaks for `records` keeps `record` alive.
fn guards(records: &KeySet<RecordId>, record: &RecordId, root: &Option<SessionId>) -> (r: bool)
    ensures
        r == ledger::guards(records@, record.deep_view(), root.deep_view()),
{
    records.has(record) || match root {
        Some(root) => records.has(&RecordId::Session(root.dup())),
        None => false,
    }
}

impl RecordLifetime {
    /// No records, with a grace of `grace_ms` milliseconds.
    pub fn new(grace_ms: u64) -> (r: Self)
        ensures
            r.deep_view() == (LifetimeView {
                grace_ms,
                records: Map::empty(),
                connections: Map::empty(),
                ended_roots: Set::empty(),
            }),
    {
        RecordLifetime {
            grace_ms,
            records: Table::new(),
            connections: Table::new(),
            ended_roots: KeySet::new(),
        }
    }

    /// Whether an open connection keeps `record` alive.
    fn protected(&self, record: &RecordId, root: &Option<SessionId>) -> (r: bool)
        ensures
            r == ledger::protected(self.connections@, record.deep_view(), root.deep_view()),
    {
        let ghost rows = self.connections.rows();
        let n: usize = self.connections.len();
        let mut i: usize = 0;
        proof {
            table::lemma_rows_map(rows);
        }
        while i < n
            invariant
                rows == self.connections.rows(),
                n == rows.len(),
                i <= n,
                forall|j: int|
                    0 <= j < rows.len() ==> self.connections@.dom().contains(
                        (#[trigger] rows[j]).0,
                    ) && self.connections@[rows[j].0] == rows[j].1,
                forall|j: int|
                    0 <= j < i ==> !ledger::guards(
                        (#[trigger] rows[j]).1,
                        record.deep_view(),
                        root.deep_view(),
                    ),
            decreases n - i,
        {
            if guards(self.connections.value_at(i), record, root) {
                assert(ledger::guards(
                    self.connections@[rows[i as int].0],
                    record.deep_view(),
                    root.deep_view(),
                ));
                return true;
            }
            i = i + 1;
        }
        proof {
            if ledger::protected(self.connections@, record.deep_view(), root.deep_view()) {
                let c = choose|c: u64|
                    self.connections@.dom().contains(c) && ledger::guards(
                        #[trigger] self.connections@[c],
                        record.deep_view(),
                        root.deep_view(),
                    );
                assert(rows[table::row_of(rows, c)].0 == c);
            }
        }
        false
    }

    /// Note activity of `caller` at `now`.
    pub fn touch_hook(&mut self, caller: &Caller, now: Instant)
        ensures
            final(self).deep_view() == ledger::touch(
                old(self).deep_view(),
                caller.deep_view(),
                now,
            ),
    {
        let over = match &caller.root {
            Some(root) => self.ended_roots.has(root),
            None => false,
        };
        let before = match self.records.get(&caller.record) {
            Some(life) => Life {
                root: dup_session(&life.root),
                last_unprotected_activity: life.last_unprotected_activity,
                ended: life.ended,
            },
            None => Life {
                root: dup_session(&caller.root),
                last_unprotected_activity: now,
                ended: over,
            },
        };
        let ended = before.ended || over;
        let root = if caller.root.is_some() {
            dup_session(&caller.root)
        } else {
            before.root
        };
        let last: u64 = if ended {
            before.last_unprotected_activity
        } else {
            now
        };
        self.records.put(
            caller.record.dup(),
            Life { root, last_unprotected_activity: last, ended },
        );
    }

    /// Let `connection` speak for `caller`.
    pub fn attach(&mut self, connection: ConnectionId, caller: &Caller, now: Instant)
        ensures
            final(self).deep_view() == ledger::attach_life(
                old(self).deep_view(),
                connection.number,
                caller.deep_view(),
                now,
            ),
    {
        self.touch_hook(caller, now);
        let ghost mid = self.deep_view();
        let mut records = match self.connections.get(&connection) {
            Some(records) => records.dup(),
            None => KeySet::new(),
        };
        records.add(caller.record.dup());
        self.connections.put(connection, records);
    }

    /// Close `connection`.
    pub fn close(&mut self, connection: ConnectionId, now: Instant)
        ensures
            final(self).deep_view() == ledger::close_life(
                old(self).deep_view(),
                connection.number,
                now,
            ),
    {
        let ghost l = self.deep_view();
        let ghost rows = self.records.rows();
        let n: usize = self.records.len();
        let mut held: Vec<bool> = Vec::new();
        let mut i: usize = 0;
        while i < n
            invariant
                l == self.deep_view(),
                rows == self.records.rows(),
                n == rows.len(),
                i <= n,
                held.len() == i,
                forall|j: int|
                    0 <= j < i ==> #[trigger] held@[j] == ledger::protected(
                        l.connections,
                        rows[j].0,
                        rows[j].1.root,
                    ),
            decreases n - i,
        {
            let h = self.protected(self.records.key_at(i), &self.records.value_at(i).root);
            held.push(h);
            i = i + 1;
        }
        let _ = self.connections.take(&connection);
        let ghost left = self.connections@;
        let ghost f = |row: (RecordView, LifeView)|
            if ledger::protected(l.connections, row.0, row.1.root) && !ledger::protected(
                left,
                row.0,
                row.1.root,
            ) {
                LifeView { last: now, ..row.1 }
            } else {
                row.1
            };
        i = 0;
        while i < n
            invariant
                n == rows.len(),
                i <= n,
                held.len() == n,
                table::distinct_rows(rows),
                left == self.connections@,
                self.deep_view() == (LifetimeView {
                    records: self.records@,
                    connections: left,
                    ..l
                }),
                f == (|row: (RecordView, LifeView)|
                    if ledger::protected(l.connections, row.0, row.1.root) && !ledger::protected(
                        left,
                        row.0,
                        row.1.root,
                    ) {
                        LifeView { last: now, ..row.1 }
                    } else {
                        row.1
                    }),
                forall|j: int|
                    0 <= j < n ==> #[trigger] held@[j] == ledger::protected(
                        l.connections,
                        rows[j].0,
                        rows[j].1.root,
                    ),
                self.records.rows().len() == n,
                forall|j: int|
                    0 <= j < n ==> (#[trigger] self.records.rows()[j]).0 == rows[j].0
                        && self.records.rows()[j].1 == if j < i {
                        f(rows[j])
                    } else {
                        rows[j].1
                    },
            decreases n - i,
        {
            let life = self.records.value_at(i);
            if held[i] && !self.protected(self.records.key_at(i), &life.root) {
                let updated = Life {
                    root: dup_session(&life.root),
                    last_unprotected_activity: now,
                    ended: life.ended,
                };
                self.records.set_at(i, updated);
            }
            i = i + 1;
        }
        proof {
            let after = self.records.rows();
            table::lemma_same_keys(rows, after);
            table::lemma_rows_map(rows);
            table::lemma_rows_map(after);
            let want = ledger::close_life(l, connection.number, now).records;
            assert forall|w: RecordView| #[trigger]
                want.dom().contains(w) implies self.records@[w] == want[w] by {
                let j = table::row_of(rows, w);
                assert(rows[j].0 == w);
                assert(after[j].0 == w);
            }
            assert(self.records@ =~= want);
        }
    }

    /// End root session `root`, and with it its agents.
    pub fn end_root(&mut self, root: &SessionId, now: Instant)
        ensures
            final(self).deep_view() == ledger::end_root_life(old(self).deep_view(), root@, now),
    {
        let ghost l = self.deep_view();
        let ghost rows = self.records.rows();
        let n: usize = self.records.len();
        let ghost f = |row: (RecordView, LifeView)|
            if row.1.root == Some(root@) || row.0 == RecordView::Session(root@) {
                LifeView { last: now, ended: true, ..row.1 }
            } else {
                row.1
            };
        self.ended_roots.add(root.dup());
        let session = RecordId::Session(root.dup());
        let mut i: usize = 0;
        while i < n
            invariant
                n == rows.len(),
                i <= n,
                table::distinct_rows(rows),
                session.deep_view() == RecordView::Session(root@),
                self.deep_view() == (LifetimeView {
                    records: self.records@,
                    ended_roots: l.ended_roots.insert(root@),
                    ..l
                }),
                f == (|row: (RecordView, LifeView)|
                    if row.1.root == Some(root@) || row.0 == RecordView::Session(root@) {
                        LifeView { last: now, ended: true, ..row.1 }
                    } else {
                        row.1
                    }),
                self.records.rows().len() == n,
                forall|j: int|
                    0 <= j < n ==> (#[trigger] self.records.rows()[j]).0 == rows[j].0
                        && self.records.rows()[j].1 == if j < i {
                        f(rows[j])
                    } else {
                        rows[j].1
                    },
            decreases n - i,
        {
            let life = self.records.value_at(i);
            let under = match &life.root {
                Some(own) => own.same(root),
                None => false,
            };
            if under || self.records.key_at(i).same(&session) {
                let updated = Life {
                    root: dup_session(&life.root),
                    last_unprotected_activity: now,
                    ended: true,
                };
                self.records.set_at(i, updated);
            }
            i = i + 1;
        }
        proof {
            let after = self.records.rows();
            table::lemma_same_keys(rows, after);
            table::lemma_rows_map(rows);
            table::lemma_rows_map(after);
            let want = ledger::end_root_life(l, root@, now).records;
            assert forall|w: RecordView| #[trigger]
                want.dom().contains(w) implies self.records@[w] == want[w] by {
                let j = table::row_of(rows, w);
                assert(rows[j].0 == w);
                assert(after[j].0 == w);
            }
            assert(self.records@ =~= want);
        }
    }

    /// When the record in row `i` expires, in nanoseconds.
    fn deadline_at(&self, i: usize) -> (r: Option<u128>)
        requires
            i < self.records.rows().len(),
            table::distinct_rows(self.records.rows()),
        ensures
            match (r, ledger::deadline(self.deep_view(), self.records.rows()[i as int].0)) {
                (Some(a), Some(b)) => a == b,
                (None, None) => true,
                _ => false,
            },
    {
        let life = self.records.value_at(i);
        proof {
            table::lemma_rows_map(self.records.rows());
        }
        if self.protected(self.records.key_at(i), &life.root) {
            None
        } else if life.ended {
            Some(life.last_unprotected_activity as u128)
        } else {
            Some(life.last_unprotected_activity as u128 + self.grace_ms as u128 * 1_000_000)
        }
    }

    /// The earliest moment at which a record expires, if any does.
    pub fn next_deadline(&self) -> (r: Option<u128>)
        ensures
            ledger::is_next_deadline(
                self.deep_view(),
                match r {
                    Some(at) => Some(at as int),
                    None => None,
                },
            ),
    {
        let ghost rows = self.records.rows();
        let ghost l = self.deep_view();
        let n: usize = self.records.len();
        let mut first: Option<u128> = None;
        let mut i: usize = 0;
        proof {
            table::lemma_rows_map(rows);
        }
        while i < n
            invariant
                rows == self.records.rows(),
                l == self.deep_view(),
                n == rows.len(),
                i <= n,
                table::distinct_rows(rows),
                forall|j: int|
                    0 <= j < rows.len() ==> self.records@.dom().contains((#[trigger] rows[j]).0),
                match first {
                    Some(at) => {
                        &&& exists|j: int|
                            0 <= j < i && ledger::deadline(l, (#[trigger] rows[j]).0) == Some(
                                at as int,
                            )
                        &&& forall|j: int|
                            0 <= j < i ==> match ledger::deadline(l, (#[trigger] rows[j]).0) {
                                Some(other) => at <= other,
                                None => true,
                            }
                    },
                    None => forall|j: int|
                        0 <= j < i ==> ledger::deadline(l, (#[trigger] rows[j]).0) is None,
                },
            decreases n - i,
        {
            let ghost before = first;
            match (self.deadline_at(i), first) {
                (Some(at), None) => {
                    first = Some(at);
                    assert(ledger::deadline(l, rows[i as int].0) == Some(at as int));
                },
                (Some(at), Some(best)) => {
                    if at < best {
                        first = Some(at);
                        assert(ledger::deadline(l, rows[i as int].0) == Some(at as int));
                    } else {
                        let ghost j = choose|j: int|
                            0 <= j < i && ledger::deadline(l, (#[trigger] rows[j]).0) == Some(
                                best as int,
                            );
                        assert(ledger::deadline(l, rows[j].0) == Some(best as int));
                    }
                },
                (None, Some(best)) => {
                    let ghost j = choose|j: int|
                        0 <= j < i && ledger::deadline(l, (#[trigger] rows[j]).0) == Some(
                            best as int,
                        );
                    assert(ledger::deadline(l, rows[j].0) == Some(best as int));
                },
                (None, None) => {},
            }
            i = i + 1;
        }
        proof {
            assert forall|w: RecordView| self.records@.dom().contains(w) implies rows[#[trigger] table::row_of(rows, w)].0
                == w && 0 <= table::row_of(rows, w) < rows.len() by {}
            match first {
                Some(at) => {
                    let j = choose|j: int|
                        0 <= j < n && ledger::deadline(l, (#[trigger] rows[j]).0) == Some(at as int);
                    assert(self.records@.dom().contains(rows[j].0));
                    assert forall|w: RecordView| self.records@.dom().contains(w) implies match #[trigger] ledger::deadline(l, w) {
                        Some(other) => at <= other,
                        None => true,
                    } by {
                        assert(rows[table::row_of(rows, w)].0 == w);
                    }
                },
                None => {
                    assert forall|w: RecordView| self.records@.dom().contains(w) implies #[trigger] ledger::deadline(l, w) is None by {
                        assert(rows[table::row_of(rows, w)].0 == w);
                    }
                },
            }
        }
        first
    }

    /// Drop the records that have expired by `now`, and return them.
    pub fn expire(&mut self, now: Instant) -> (r: Vec<RecordId>)
        ensures
            final(self).deep_view() == ledger::expire_life(old(self).deep_view(), now),
            r.deep_view().to_set() == ledger::expired_by(old(self).deep_view(), now),
    {
        let ghost l = self.deep_view();
        let ghost rows = self.records.rows();
        let ghost gone = ledger::expired_by(l, now);
        let n: usize = self.records.len();
        let mut list: Vec<RecordId> = Vec::new();
        let mut i: usize = 0;
        proof {
            table::lemma_rows_map(rows);
        }
        while i < n
            invariant
                rows == self.records.rows(),
                l == self.deep_view(),
                n == rows.len(),
                i <= n,
                table::distinct_rows(rows),
                forall|j: int|
                    0 <= j < rows.len() ==> l.records.dom().contains((#[trigger] rows[j]).0),
                forall|w: RecordView| #[trigger]
                    list.deep_view().contains(w) <==> (exists|j: int|
                        0 <= j < i && (#[trigger] rows[j]).0 == w && ledger::expired(l, now, w)),
            decreases n - i,
        {
            let ghost before = list.deep_view();
            let ghost key = rows[i as int].0;
            let out = match self.deadline_at(i) {
                Some(at) => at <= now as u128,
                None => false,
            };
            assert(out == ledger::expired(l, now, key));
            if out {
                let item = self.records.key_at(i).dup();
                list.push(item);
                assert(list.deep_view() =~= before.push(key));
            }
            proof {
                assert forall|w: RecordView| #[trigger]
                    list.deep_view().contains(w) <==> (exists|j: int|
                        0 <= j < i + 1 && (#[trigger] rows[j]).0 == w && ledger::expired(
                            l,
                            now,
                            w,
                        )) by {
                    if before.contains(w) {
                        let x = choose|x: int| 0 <= x < before.len() && before[x] == w;
                        assert(list.deep_view()[x] == w);
                        let j = choose|j: int|
                            0 <= j < i && (#[trigger] rows[j]).0 == w && ledger::expired(l, now, w);
                        assert(rows[j].0 == w);
                    }
                    if out && w == key {
                        assert(list.deep_view()[before.len() as int] == w);
                        assert(rows[i as int].0 == w);
                    }
                    if list.deep_view().contains(w) && !before.contains(w) {
                        let x = choose|x: int|
                            0 <= x < list.deep_view().len() && list.deep_view()[x] == w;
                        if x < before.len() {
                            assert(before[x] == w);
                        }
                    }
                }
            }
            i = i + 1;
        }
        proof {
            assert forall|w: RecordView| #[trigger]
                list.deep_view().to_set().contains(w) == gone.contains(w) by {
                if gone.contains(w) {
                    assert(rows[table::row_of(rows, w)].0 == w);
                    assert(list.deep_view().contains(w));
                }
                if list.deep_view().contains(w) {
                    let j = choose|j: int|
                        0 <= j < n && (#[trigger] rows[j]).0 == w && ledger::expired(l, now, w);
                    assert(l.records.dom().contains(rows[j].0));
                }
            }
            assert(list.deep_view().to_set() =~= gone);
        }
        let ghost items = list.deep_view();
        let mut k: usize = 0;
        assert(l.records.remove_keys(items.take(0).to_set()) =~= l.records);
        while k < list.len()
            invariant
                items == list.deep_view(),
                k <= list.len(),
                self.deep_view() == (LifetimeView {
                    records: l.records.remove_keys(items.take(k as int).to_set()),
                    ..l
                }),
            decreases list.len() - k,
        {
            let ghost part = items.take(k as int);
            let _ = self.records.take(&list[k]);
            proof {
                assert(items.take(k + 1) =~= part.push(items[k as int]));
                assert forall|x: RecordView| #[trigger]
                    part.push(items[k as int]).to_set().contains(x) == part.to_set().insert(
                        items[k as int],
                    ).contains(x) by {
                    if part.contains(x) {
                        let j = choose|j: int| 0 <= j < part.len() && part[j] == x;
                        assert(part.push(items[k as int])[j] == x);
                    }
                    assert(part.push(items[k as int])[part.len() as int] == items[k as int]);
                }
                assert(self.records@ =~= l.records.remove_keys(items.take(k + 1).to_set()));
            }
            k = k + 1;
        }
        assert(items.take(k as int) =~= items);
        self.keep_rooted();
        list
    }

    /// Forget the ended roots that no record has.
    fn keep_rooted(&mut self)
        ensures
            final(self).deep_view() == (LifetimeView {
                ended_roots: old(self).deep_view().ended_roots.filter(
                    |root: Seq<char>|
                        exists|r: RecordView|
                            old(self).deep_view().records.dom().contains(r) && (
                            #[trigger] old(self).deep_view().records[r]).root == Some(root),
                ),
                ..old(self).deep_view()
            }),
    {
        let ghost l = self.deep_view();
        let ghost items = self.ended_roots.items();
        let mut kept: KeySet<SessionId> = KeySet::new();
        let n: usize = self.ended_roots.len();
        let mut i: usize = 0;
        while i < n
            invariant
                l == self.deep_view(),
                items == self.ended_roots.items(),
                n == items.len(),
                i <= n,
                forall|root: Seq<char>| #[trigger]
                    kept@.contains(root) <==> items.take(i as int).contains(root) && has_rooted(
                        l,
                        root,
                    ),
            decreases n - i,
        {
            let ghost before = kept@;
            let ghost part = items.take(i as int);
            let root = self.ended_roots.item_at(i);
            let any = self.rooted(root);
            if any {
                kept.add(root.dup());
            }
            proof {
                assert(items.take(i + 1) =~= part.push(items[i as int]));
                assert forall|root: Seq<char>| #[trigger]
                    kept@.contains(root) <==> items.take(i + 1).contains(root) && has_rooted(
                        l,
                        root,
                    ) by {
                    if part.contains(root) {
                        let j = choose|j: int| 0 <= j < part.len() && part[j] == root;
                        assert(part.push(items[i as int])[j] == root);
                    }
                    assert(part.push(items[i as int])[part.len() as int] == items[i as int]);
                }
            }
            i = i + 1;
        }
        proof {
            assert(items.take(i as int) =~= items);
            let want = l.ended_roots.filter(
                |root: Seq<char>|
                    exists|r: RecordView|
                        l.records.dom().contains(r) && (#[trigger] l.records[r]).root == Some(root),
            );
            assert forall|root: Seq<char>| #[trigger] kept@.contains(root) == want.contains(root) by {
                assert(l.ended_roots.contains(root) == items.contains(root));
            }
            assert(kept@ =~= want);
        }
        self.ended_roots = kept;
    }

    /// Whether some record has `root`.
    fn rooted(&self, root: &SessionId) -> (r: bool)
        ensures
            r == has_rooted(self.deep_view(), root@),
    {
        let ghost rows = self.records.rows();
        let n: usize = self.records.len();
        let mut i: usize = 0;
        proof {
            table::lemma_rows_map(rows);
        }
        while i < n
            invariant
                rows == self.records.rows(),
                n == rows.len(),
                i <= n,
                forall|j: int|
                    0 <= j < rows.len() ==> self.records@.dom().contains((#[trigger] rows[j]).0)
                        && self.records@[rows[j].0] == rows[j].1,
                forall|j: int| 0 <= j < i ==> (#[trigger] rows[j]).1.root != Some(root@),
            decreases n - i,
        {
            let own = match &self.records.value_at(i).root {
                Some(own) => own.same(root),
                None => false,
            };
            if own {
                assert(self.records@[rows[i as int].0].root == Some(root@));
                return true;
            }
            i = i + 1;
        }
        proof {
            if has_rooted(self.deep_view(), root@) {
                let w = choose|w: RecordView|
                    self.records@.dom().contains(w) && (#[trigger] self.records@[w]).root == Some(
                        root@,
                    );
                assert(rows[table::row_of(rows, w)].0 == w);
            }
        }
        false
    }

    /// Forget `record`.
    pub fn forget(&mut self, record: &RecordId)
        ensures
            final(self).deep_view() == ledger::forget_life(
                old(self).deep_view(),
                Set::empty().insert(record.deep_view()),
            ),
    {
        let ghost l = self.deep_view();
        let ghost w = record.deep_view();
        let ghost gone = Set::<RecordView>::empty().insert(w);
        let ghost want = ledger::forget_life(l, gone);
        let _ = self.records.take(record);
        assert(self.records@ =~= want.records);
        let ghost rows = self.connections.rows();
        let n: usize = self.connections.len();
        let mut i: usize = 0;
        while i < n
            invariant
                n == rows.len(),
                i <= n,
                table::distinct_rows(rows),
                w == record.deep_view(),
                gone == Set::<RecordView>::empty().insert(w),
                self.deep_view() == (LifetimeView {
                    records: want.records,
                    connections: self.connections@,
                    ..l
                }),
                self.connections.rows().len() == n,
                forall|j: int|
                    0 <= j < n ==> (#[trigger] self.connections.rows()[j]).0 == rows[j].0
                        && self.connections.rows()[j].1 == if j < i {
                        rows[j].1.difference(gone)
                    } else {
                        rows[j].1
                    },
            decreases n - i,
        {
            let mut records = self.connections.value_at(i).dup();
            records.remove(record);
            assert(records@ =~= rows[i as int].1.difference(gone));
            self.connections.set_at(i, records);
            i = i + 1;
        }
        proof {
            let after = self.connections.rows();
            table::lemma_same_keys(rows, after);
            table::lemma_rows_map(rows);
            table::lemma_rows_map(after);
            assert forall|c: u64| #[trigger]
                want.connections.dom().contains(c) implies self.connections@[c]
                == want.connections[c] by {
                let j = table::row_of(rows, c);
                assert(rows[j].0 == c);
                assert(after[j].0 == c);
            }
            assert(self.connections@ =~= want.connections);
        }
    }
}

/// Whether some record has `root`.
spec fn has_rooted(l: LifetimeView, root: Seq<char>) -> bool {
    exists|r: RecordView|
        l.records.dom().contains(r) && (#[trigger] l.records[r]).root == Some(root)
}

impl DiagnosticsDelivery {
    /// Let `connection` speak for `caller` from `now` on. A connection whose host
    /// named no session is its own root.
    pub fn attach(&mut self, connection: ConnectionId, caller: &Caller, now: Instant)
        requires
            ledger::sound(old(self)@),
        ensures
            final(self)@ == ledger::attach(
                old(self)@,
                connection.number,
                caller.deep_view(),
                now,
            ),
            ledger::sound(final(self)@),
    {
        let anonymous = SessionId::for_connection(connection);
        let own = RecordId::Session(anonymous.dup());
        let known = if caller.record.same(&own) {
            Caller { record: caller.record.dup(), root: Some(anonymous) }
        } else {
            Caller { record: caller.record.dup(), root: dup_session(&caller.root) }
        };
        assert(known.deep_view() == ledger::connecting(connection.number, caller.deep_view()));
        proof {
            soundness::law_register_keeps_sound(self@, known.deep_view());
        }
        self.register_caller(&known);
        let registered = self.caller(caller.record.dup());
        self.lifetime.attach(connection, &registered, now);
    }

    /// Note activity of `caller` at `now`.
    pub fn touch_hook(&mut self, caller: &Caller, now: Instant)
        requires
            ledger::sound(old(self)@),
        ensures
            final(self)@ == ledger::touch_hook(old(self)@, caller.deep_view(), now),
            ledger::sound(final(self)@),
    {
        proof {
            soundness::law_register_keeps_sound(self@, caller.deep_view());
        }
        self.register_caller(caller);
        let registered = self.caller(caller.record.dup());
        self.lifetime.touch_hook(&registered, now);
    }

    /// Drop the records that have expired by `now`.
    pub fn expire(&mut self, now: Instant)
        requires
            ledger::sound(old(self)@),
        ensures
            final(self)@ == ledger::expire(old(self)@, now),
            ledger::sound(final(self)@),
    {
        let ghost m = self@;
        let list = self.lifetime.expire(now);
        let ghost mid = self@;
        let ghost items = list.deep_view();
        let mut i: usize = 0;
        proof {
            assert(items.take(0).to_set() =~= Set::empty());
            soundness::lemma_end_none(mid);
        }
        while i < list.len()
            invariant
                i <= list.len(),
                items == list.deep_view(),
                ledger::sound(self@),
                self@ == ledger::end_records(mid, items.take(i as int).to_set()),
            decreases list.len() - i,
        {
            let ghost part = items.take(i as int);
            let ghost one = Set::<RecordView>::empty().insert(items[i as int]);
            self.end_session(&list[i]);
            proof {
                soundness::law_ending_in_steps(mid, part.to_set(), one);
                assert(items.take(i + 1) =~= part.push(items[i as int]));
                assert forall|x: RecordView| #[trigger]
                    part.push(items[i as int]).to_set().contains(x) == part.to_set().union(
                        one,
                    ).contains(x) by {
                    if part.contains(x) {
                        let j = choose|j: int| 0 <= j < part.len() && part[j] == x;
                        assert(part.push(items[i as int])[j] == x);
                    }
                    assert(part.push(items[i as int])[part.len() as int] == items[i as int]);
                }
                assert(items.take(i + 1).to_set() =~= part.to_set().union(one));
            }
            i = i + 1;
        }
        assert(items.take(i as int) =~= items);
    }

    /// Close `connection` at `now`: its own anonymous record is gone, and so is
    /// what has expired.
    pub fn close(&mut self, connection: ConnectionId, now: Instant)
        requires
            ledger::sound(old(self)@),
        ensures
            final(self)@ == ledger::close(old(self)@, connection.number, now),
            ledger::sound(final(self)@),
    {
        self.lifetime.close(connection, now);
        self.end_session(&RecordId::Session(SessionId::for_connection(connection)));
        self.expire(now);
    }

    /// End root session `root` at `now`, and with it its agents once nothing
    /// protects them.
    pub fn end_root(&mut self, root: &SessionId, now: Instant)
        requires
            ledger::sound(old(self)@),
        ensures
            final(self)@ == ledger::end_root(old(self)@, root@, now),
            ledger::sound(final(self)@),
    {
        self.lifetime.end_root(root, now);
        self.expire(now);
    }
}

} // verus!
