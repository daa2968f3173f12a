//! Which caller wrote which file, and what each one is still owed.

use crate::config::SeverityFloor;
use crate::delivery::{
    DiagnosticSnapshot, DiagnosticsDelivery, FileEntry, OwnedEntry, Ownership, RetainedFile,
};
use crate::diagnostics::visible_hash;
use crate::identity::{dup_session, Caller, CallerView, RecordId, RecordView, SessionId};
use crate::ledger;
use crate::ledger::{EntryView, Ledger, OwnerView, Recipient, RetainedView};
use crate::soundness;
use crate::table;
use crate::table::{Key, KeySet, Table};
use vstd::prelude::*;
use vstd::string::*;

verus! {

/// A root and the writers to keep a report for.
struct Addressee {
    root: SessionId,
    generation: u64,
    writers: KeySet<RecordId>,
}

impl DeepView for Addressee {
    type V = Recipient;

    closed spec fn deep_view(&self) -> Recipient {
        Recipient { root: self.root@, generation: self.generation, writers: self.writers@ }
    }
}

/// One owner more is one recipient more, if it owns the file.
pub proof fn lemma_owners_push(rows: ledger::Owners, row: ((Seq<char>, Seq<char>), OwnerView), key: Seq<char>)
    ensures
        ledger::owners_of(rows.push(row), key) == if row.0.1 == key {
            ledger::owners_of(rows, key).push(
                Recipient {
                    root: row.0.0,
                    generation: row.1.generation,
                    writers: row.1.writers,
                },
            )
        } else {
            ledger::owners_of(rows, key)
        },
{
    reveal(Seq::filter);
    assert(rows.push(row).drop_last() =~= rows);
    let whole = ledger::owners_of(rows.push(row), key);
    let part = ledger::owners_of(rows, key);
    if row.0.1 == key {
        assert(whole =~= part.push(
            Recipient { root: row.0.0, generation: row.1.generation, writers: row.1.writers },
        ));
    } else {
        assert(whole =~= part);
    }
}

impl DiagnosticsDelivery {
    /// Adopt `sources` as the text each file's ranges count in.
    pub fn capture_sources(&mut self, sources: Table<String, DiagnosticSnapshot>)
        ensures
            final(self)@ == (Ledger { sources: sources@, ..old(self)@ }),
            ledger::sound(old(self)@) ==> ledger::sound(final(self)@),
    {
        self.sources = sources;
    }

    /// What `record` has been told of file `key`.
    fn told(&self, record: &RecordId, key: &String) -> (r: Option<u64>)
        ensures
            r == ledger::committed(self@, record.deep_view(), key@),
    {
        let history: Option<&Table<String, u64>> = match self.sessions.get(record) {
            Some(history) => Some(history),
            None => match &self.baseline {
                Some(history) => Some(history),
                None => None,
            },
        };
        match history {
            Some(history) => match history.get(key) {
                Some(hash) => Some(*hash),
                None => None,
            },
            None => None,
        }
    }

    /// Whether `record` is a root session that reads file `key` for want of an
    /// owner.
    fn falls_back(&self, record: &RecordId, key: &String) -> (r: bool)
        ensures
            r == ledger::falls_back(self@, record.deep_view(), key@),
    {
        match self.roots.get(record) {
            Some(Some(root)) => {
                let owned = (root.dup(), key.clone());
                record.same(&RecordId::Session(root.dup())) && !self.ownership.has(&owned)
            },
            _ => false,
        }
    }

    /// Whom a report of file `key` is kept for when `reader` asks.
    fn addressees(&self, reader: Option<&RecordId>, key: &String) -> (r: Vec<Addressee>)
        ensures
            r.deep_view() == ledger::recipients(self@, reader.deep_view(), key@),
            r.len() <= self@.ownership.len() + 1,
    {
        let ghost rows = self@.ownership;
        let mut r: Vec<Addressee> = Vec::new();
        let mut i: usize = 0;
        proof {
            reveal(Seq::filter);
            assert(rows.take(0) =~= Seq::empty());
            assert(r.deep_view() =~= ledger::owners_of(rows.take(0), key@));
        }
        while i < self.ownership.len()
            invariant
                rows == self@.ownership,
                rows == self.ownership.rows(),
                i <= rows.len(),
                r.len() <= i,
                r.deep_view() == ledger::owners_of(rows.take(i as int), key@),
            decreases rows.len() - i,
        {
            let ghost before = r.deep_view();
            let at = self.ownership.key_at(i);
            let owner = self.ownership.value_at(i);
            proof {
                assert(rows.take(i + 1) =~= rows.take(i as int).push(rows[i as int]));
                lemma_owners_push(rows.take(i as int), rows[i as int], key@);
            }
            if at.1 == *key {
                let item = Addressee {
                    root: at.0.dup(),
                    generation: owner.generation,
                    writers: owner.writers.dup(),
                };
                let ghost v = item.deep_view();
                r.push(item);
                assert(r.deep_view() =~= before.push(v));
            }
            i = i + 1;
        }
        assert(rows.take(i as int) =~= rows);
        let ghost owners = r.deep_view();
        match reader {
            Some(record) => {
                if self.falls_back(record, key) {
                    let mut writers: KeySet<RecordId> = KeySet::new();
                    writers.add(record.dup());
                    let item = Addressee { root: record.session().dup(), generation: 0, writers };
                    let ghost v = item.deep_view();
                    r.push(item);
                    assert(r.deep_view() =~= owners + seq![v]);
                } else {
                    assert(owners =~= owners + Seq::<Recipient>::empty());
                }
            },
            None => {
                assert(owners =~= owners + Seq::<Recipient>::empty());
            },
        }
        r
    }

    /// Keep `report` for `writer`, unless the newest report kept for it, or
    /// without any what it was told, shows the same.
    fn offer(&mut self, writer: &RecordId, report: &RetainedFile)
        ensures
            ({
                let w = writer.deep_view();
                let key = report.file.key@;
                let m = old(self)@;
                final(self)@ == (Ledger {
                    retained: ledger::set_queue(
                        m.retained,
                        w,
                        key,
                        ledger::offered(
                            ledger::queue_at(m.retained, w, key),
                            ledger::committed(m, w, key),
                            report.deep_view(),
                        ),
                    ),
                    ..m
                })
            }),
    {
        let ghost m = self@;
        let ghost w = writer.deep_view();
        let told = self.told(writer, &report.file.key);
        let mut files = match self.retained.take(writer) {
            Some(files) => files,
            None => Table::new(),
        };
        let ghost files0 = files@;
        assert(files0 =~= ledger::files_at(m.retained, w));
        let mut queue: Vec<RetainedFile> = match files.take(&report.file.key) {
            Some(queue) => queue,
            None => Vec::new(),
        };
        let ghost queue0 = queue.deep_view();
        assert(queue0 =~= ledger::queue_at(m.retained, w, report.file.key@));
        let previous: Option<u64> = if queue.len() > 0 {
            queue[queue.len() - 1].hash
        } else {
            told
        };
        if previous != report.hash {
            queue.push(report.dup());
            assert(queue.deep_view() =~= queue0.push(report.deep_view()));
        }
        let ghost queue1 = queue.deep_view();
        files.put(report.file.key.clone(), queue);
        assert(files@ =~= files0.insert(report.file.key@, queue1));
        let ghost files1 = files@;
        self.retained.put(writer.dup(), files);
        assert(self.retained@ =~= m.retained.insert(w, files1));
    }

    /// Offer `report` to each of `writers`.
    fn offer_all(&mut self, writers: &KeySet<RecordId>, report: &RetainedFile)
        ensures
            final(self)@ == (Ledger {
                retained: ledger::offer_writers(
                    old(self)@,
                    old(self)@.retained,
                    writers@,
                    report.deep_view(),
                ),
                ..old(self)@
            }),
    {
        let ghost m = self@;
        let ghost v = report.deep_view();
        let ghost items = writers.items();
        let n: usize = writers.len();
        let mut i: usize = 0;
        proof {
            assert(items.take(0).to_set() =~= Set::empty());
            assert(ledger::offer_writers(m, m.retained, Set::empty(), v) =~= m.retained);
        }
        while i < n
            invariant
                items == writers.items(),
                n == items.len(),
                i <= n,
                crate::table::distinct_items(items),
                v == report.deep_view(),
                self@ == (Ledger {
                    retained: ledger::offer_writers(
                        m,
                        m.retained,
                        items.take(i as int).to_set(),
                        v,
                    ),
                    ..m
                }),
            decreases n - i,
        {
            let writer = writers.item_at(i);
            let ghost w = writer.deep_view();
            let ghost done = items.take(i as int).to_set();
            let ghost now = self@;
            proof {
                assert(!done.contains(w)) by {
                    if items.take(i as int).contains(w) {
                        let j = choose|j: int|
                            0 <= j < items.take(i as int).len() && items.take(i as int)[j] == w;
                        assert(items[j] != items[i as int]);
                    }
                }
                assert(items.take(i + 1) =~= items.take(i as int).push(w));
                assert(items.take(i + 1).to_set() =~= done.insert(w)) by {
                    assert forall|x: RecordView| #[trigger]
                        items.take(i + 1).to_set().contains(x) == done.insert(w).contains(x) by {
                        let part = items.take(i as int);
                        if part.contains(x) {
                            let j = choose|j: int| 0 <= j < part.len() && part[j] == x;
                            assert(part.push(w)[j] == x);
                        }
                        assert(part.push(w)[part.len() as int] == w);
                    }
                }
                assert(ledger::files_at(now.retained, w) == ledger::files_at(m.retained, w));
                assert(ledger::committed(now, w, v.file.key) == ledger::committed(
                    m,
                    w,
                    v.file.key,
                ));
            }
            self.offer(writer, report);
            assert(self@.retained =~= ledger::offer_writers(m, m.retained, done.insert(w), v));
            i = i + 1;
        }
        proof {
            assert(items.take(i as int) =~= items);
        }
    }

    /// Keep a report of `entry` for each of `to`.
    fn observe_entry(&mut self, entry: &FileEntry<'_>, to: &Vec<Addressee>)
        requires
            old(self)@.next_snapshot + to.len() <= u64::MAX,
        ensures
            final(self)@ == ledger::observe_recipients(
                old(self)@,
                entry.deep_view(),
                to.deep_view(),
            ),
            final(self)@.next_snapshot == old(self)@.next_snapshot + to.len(),
    {
        let ghost m = self@;
        let ghost e = entry.deep_view();
        let ghost all = to.deep_view();
        let hash = visible_hash(entry.diagnostics, entry.floor);
        let mut i: usize = 0;
        assert(all.take(0) =~= Seq::empty());
        while i < to.len()
            invariant
                i <= to.len(),
                all == to.deep_view(),
                e == entry.deep_view(),
                hash == e.hash(),
                m.next_snapshot + to.len() <= u64::MAX,
                self@ == ledger::observe_recipients(m, e, all.take(i as int)),
                self@.next_snapshot == m.next_snapshot + i,
            decreases to.len() - i,
        {
            let ghost now = self@;
            let ghost to_i = all[i as int];
            proof {
                assert(all.take(i + 1).drop_last() =~= all.take(i as int));
                assert(all.take(i + 1).last() == to_i);
            }
            self.next_snapshot = self.next_snapshot + 1;
            let file = OwnedEntry::of(entry);
            let source = match self.sources.get(&file.key) {
                Some(source) => Some(source.dup()),
                None => None,
            };
            let report = RetainedFile {
                id: self.next_snapshot,
                root: to[i].root.dup(),
                generation: to[i].generation,
                file,
                hash,
                source,
            };
            proof {
                assert(report.deep_view() == ledger::report_of(
                    now,
                    e,
                    to_i,
                    (now.next_snapshot + 1) as u64,
                ));
                lemma_offer_ignores_counter(
                    now,
                    self@,
                    now.retained,
                    to_i.writers,
                    report.deep_view(),
                );
            }
            self.offer_all(&to[i].writers, &report);
            i = i + 1;
        }
        assert(all.take(i as int) =~= all);
    }

    /// Keep what the writers of each of `entries` are owed, and what `reader`
    /// falls back to.
    pub fn observe_for(&mut self, reader: Option<&RecordId>, entries: &[FileEntry<'_>])
        requires
            old(self)@.next_snapshot + entries.len() * (old(self)@.ownership.len() + 1) <= u64::MAX,
        ensures
            final(self)@ == ledger::observe(old(self)@, reader.deep_view(), entries.deep_view()),
            ledger::sound(old(self)@) ==> ledger::sound(final(self)@),
    {
        proof {
            soundness::lemma_observe(self@, reader.deep_view(), entries.deep_view());
        }
        let ghost m = self@;
        let ghost all = entries.deep_view();
        let ghost width = m.ownership.len() + 1;
        let mut i: usize = 0;
        assert(all.take(0) =~= Seq::empty());
        while i < entries.len()
            invariant
                i <= entries.len(),
                all == entries.deep_view(),
                width == m.ownership.len() + 1,
                m.next_snapshot + entries.len() * width <= u64::MAX,
                self@ == ledger::observe(m, reader.deep_view(), all.take(i as int)),
                self@.ownership == m.ownership,
                self@.next_snapshot <= m.next_snapshot + i * width,
            decreases entries.len() - i,
        {
            let entry = &entries[i];
            proof {
                assert(all.take(i + 1).drop_last() =~= all.take(i as int));
                assert(all.take(i + 1).last() == entry.deep_view());
                assert(i * width + width == (i + 1) * width) by (nonlinear_arith);
                assert((i + 1) * width <= entries.len() * width) by (nonlinear_arith)
                    requires
                        i + 1 <= entries.len(),
                        width >= 0,
                ;
            }
            let key = entry.key.to_owned();
            let to = self.addressees(reader, &key);
            proof {
                lemma_observe_keeps(self@, entry.deep_view(), to.deep_view());
            }
            self.observe_entry(entry, &to);
            i = i + 1;
        }
        assert(all.take(i as int) =~= all);
    }

    /// Keep what the writers of each of `entries` are owed.
    pub fn observe_owned(&mut self, entries: &[FileEntry<'_>])
        requires
            old(self)@.next_snapshot + entries.len() * (old(self)@.ownership.len() + 1) <= u64::MAX,
        ensures
            final(self)@ == ledger::observe(old(self)@, None, entries.deep_view()),
            ledger::sound(old(self)@) ==> ledger::sound(final(self)@),
    {
        self.observe_for(None, entries);
    }
}

impl DiagnosticsDelivery {
    /// Mark the owner whose cycle `report` delivers.
    fn mark_told(&mut self, record: &RecordId, report: &RetainedFile)
        ensures
            final(self)@ == (Ledger {
                ownership: ledger::mark_delivered(
                    old(self)@,
                    old(self)@.ownership,
                    record.deep_view(),
                    report.deep_view(),
                ),
                ..old(self)@
            }),
    {
        let ghost m = self@;
        let ghost rows = m.ownership;
        let ghost want = ledger::mark_delivered(m, rows, record.deep_view(), report.deep_view());
        let size = self.ownership.len();
        proof {
            table::lemma_rows_map(rows);
        }
        let root = match self.roots.get(record) {
            Some(Some(root)) => root.dup(),
            _ => report.root.dup(),
        };
        let at = (root, report.file.key.clone());
        let ghost key = at.deep_view();
        let mut updated: Option<Ownership> = None;
        match self.ownership.get(&at) {
            Some(owner) => {
                if owner.generation == report.generation && report.file.floor
                    != SeverityFloor::Off {
                    updated =
                    Some(
                        Ownership {
                            generation: owner.generation,
                            delivered: true,
                            writers: owner.writers.dup(),
                        },
                    );
                }
            },
            None => {},
        }
        match updated {
            Some(owner) => {
                let ghost i = table::row_of(rows, key);
                proof {
                    assert(rows[i].0 == key);
                }
                self.ownership.put(at, owner);
                proof {
                    assert forall|j: int| 0 <= j < rows.len() implies want[j] == table::put_row(
                        rows,
                        key,
                        ledger::delivered_row(rows[i]).1,
                    )[j] by {
                        if rows[j].0 == key {
                            assert(table::row_of(rows, rows[j].0) == j);
                        }
                    }
                    assert(want =~= self@.ownership);
                }
            },
            None => {
                proof {
                    assert forall|j: int| 0 <= j < rows.len() implies want[j] == rows[j] by {
                        if rows[j].0 == key {
                            assert(table::row_of(rows, rows[j].0) == j);
                        }
                    }
                    assert(want =~= rows);
                }
            },
        }
    }

    /// Mark the owners that the first `n` of `queue` deliver.
    fn mark_queue(&mut self, record: &RecordId, queue: &Vec<RetainedFile>, n: usize)
        requires
            n <= queue.len(),
        ensures
            final(self)@ == (Ledger {
                ownership: old(self)@.ownership.map_values(
                    |row: ((Seq<char>, Seq<char>), OwnerView)|
                        if queue_delivers(
                            old(self)@,
                            record.deep_view(),
                            queue.deep_view(),
                            n as int,
                            row,
                        ) {
                            ledger::delivered_row(row)
                        } else {
                            row
                        },
                ),
                ..old(self)@
            }),
    {
        let ghost m = self@;
        let ghost r = record.deep_view();
        let ghost q = queue.deep_view();
        let ghost hit = |j: int|
            m.ownership.map_values(
                |row: ((Seq<char>, Seq<char>), OwnerView)|
                    if queue_delivers(m, r, q, j, row) {
                        ledger::delivered_row(row)
                    } else {
                        row
                    },
            );
        let mut j: usize = 0;
        proof {
            assert(hit(0) =~= m.ownership);
        }
        while j < n
            invariant
                j <= n,
                n <= queue.len(),
                r == record.deep_view(),
                q == queue.deep_view(),
                hit == (|j: int|
                    m.ownership.map_values(
                        |row: ((Seq<char>, Seq<char>), OwnerView)|
                            if queue_delivers(m, r, q, j, row) {
                                ledger::delivered_row(row)
                            } else {
                                row
                            },
                    )),
                self@ == (Ledger { ownership: hit(j as int), ..m }),
            decreases n - j,
        {
            let ghost now = self@;
            self.mark_told(record, &queue[j]);
            proof {
                assert forall|i: int| 0 <= i < m.ownership.len() implies self@.ownership[i] == hit(
                    j + 1,
                )[i] by {
                    let row = m.ownership[i];
                    let there = now.ownership[i];
                    assert(there.0 == row.0 && there.1.generation == row.1.generation);
                    assert(ledger::delivers(now, r, q[j as int], there) == ledger::delivers(
                        m,
                        r,
                        q[j as int],
                        row,
                    ));
                    if queue_delivers(m, r, q, j as int, row) {
                        let k = choose|k: int|
                            0 <= k < j && ledger::delivers(m, r, #[trigger] q[k], row);
                        assert(ledger::delivers(m, r, q[k], row));
                        assert(queue_delivers(m, r, q, j + 1, row));
                    }
                    if queue_delivers(m, r, q, j + 1, row) {
                        let k = choose|k: int|
                            0 <= k < j + 1 && ledger::delivers(m, r, #[trigger] q[k], row);
                        if k < j {
                            assert(queue_delivers(m, r, q, j as int, row));
                        }
                    }
                }
                assert(self@.ownership =~= hit(j + 1));
            }
            j = j + 1;
        }
    }

    /// Take the oldest report kept for `record` of file `key`, if its number is
    /// `id`.
    fn pop_if(&mut self, record: &RecordId, key: &String, id: u64)
        ensures
            ({
                let queue = ledger::queue_at(old(self)@.retained, record.deep_view(), key@);
                final(self)@ == if queue.len() > 0 && queue[0].id == id {
                    ledger::pop_report(old(self)@, record.deep_view(), key@)
                } else {
                    old(self)@
                }
            }),
    {
        let ghost m = self@;
        let ghost r = record.deep_view();
        match self.retained.take(record) {
            None => {
                assert(self@.retained =~= m.retained);
            },
            Some(files) => {
                let mut files = files;
                let ghost files0 = files@;
                match files.take(key) {
                    None => {
                        assert(files@ =~= files0);
                    },
                    Some(queue) => {
                        let mut queue = queue;
                        let ghost queue0 = queue.deep_view();
                        assert(queue0 == ledger::queue_at(m.retained, r, key@));
                        if queue.len() > 0 && queue[0].id == id {
                            let report = queue.remove(0);
                            assert(queue.deep_view() =~= queue0.drop_first());
                            assert(report.deep_view() == queue0[0]);
                            let ghost now = self@;
                            self.mark_told(record, &report);
                            assert(self@.ownership =~= ledger::mark_delivered(
                                m,
                                m.ownership,
                                r,
                                queue0[0],
                            ));
                        }
                        let ghost queue1 = queue.deep_view();
                        files.put(key.clone(), queue);
                        assert(files@ =~= files0.insert(key@, queue1));
                    },
                }
                let ghost files1 = files@;
                self.retained.put(record.dup(), files);
                assert(self@.retained =~= m.retained.insert(r, files1));
                assert(m.retained.insert(r, files0) =~= m.retained);
                assert(ledger::files_at(m.retained, r) == files0);
                proof {
                    if files0.dom().contains(key@) {
                        assert(files0.insert(key@, files0[key@]) =~= files0);
                    }
                }
            },
        }
    }

    /// Forget the files of `record` without reports, and the record without
    /// files.
    fn tidy(&mut self, record: &RecordId)
        ensures
            final(self)@ == (Ledger {
                retained: ledger::tidy(old(self)@.retained, record.deep_view()),
                ..old(self)@
            }),
    {
        let ghost m = self@;
        let ghost r = record.deep_view();
        match self.retained.take(record) {
            None => {
                assert(self@.retained =~= m.retained);
            },
            Some(files) => {
                let ghost files0 = files@;
                let ghost rows = files.rows();
                let n: usize = files.len();
                let mut left: Table<String, Vec<RetainedFile>> = Table::new();
                let mut i: usize = 0;
                proof {
                    table::lemma_rows_map(rows);
                }
                while i < n
                    invariant
                        rows == files.rows(),
                        files0 == crate::table::rows_map(rows),
                        table::distinct_rows(rows),
                        n == rows.len(),
                        i <= n,
                        forall|k: Seq<char>| #[trigger]
                            left@.dom().contains(k) <==> (exists|j: int|
                                0 <= j < i && (#[trigger] rows[j]).0 == k && rows[j].1.len() > 0),
                        forall|k: Seq<char>| #[trigger]
                            left@.dom().contains(k) ==> left@[k] == files0[k],
                        forall|j: int|
                            0 <= j < rows.len() ==> files0.dom().contains((#[trigger] rows[j]).0)
                                && files0[rows[j].0] == rows[j].1,
                    decreases n - i,
                {
                    let queue = files.value_at(i);
                    let ghost before = left@;
                    assert(queue.deep_view() == rows[i as int].1);
                    if queue.len() > 0 {
                        let copy = dup_queue(queue);
                        left.put(files.key_at(i).dup(), copy);
                        assert(left@ =~= before.insert(rows[i as int].0, rows[i as int].1));
                    }
                    proof {
                        assert forall|k: Seq<char>| #[trigger]
                            left@.dom().contains(k) implies exists|j: int|
                            0 <= j < i + 1 && (#[trigger] rows[j]).0 == k && rows[j].1.len() > 0 by {
                            if before.dom().contains(k) {
                                let j = choose|j: int|
                                    0 <= j < i && (#[trigger] rows[j]).0 == k && rows[j].1.len() > 0;
                                assert(rows[j].0 == k);
                            } else {
                                assert(rows[i as int].0 == k);
                            }
                        }
                    }
                    i = i + 1;
                }
                let ghost want = Map::new(
                    |k: Seq<char>| files0.dom().contains(k) && files0[k].len() > 0,
                    |k: Seq<char>| files0[k],
                );
                proof {
                    assert forall|k: Seq<char>| #[trigger]
                        left@.dom().contains(k) == want.dom().contains(k) by {
                        if want.dom().contains(k) {
                            let j = table::row_of(rows, k);
                            assert(rows[j].0 == k);
                        }
                    }
                    assert(left@ =~= want);
                }
                if left.is_empty() {
                    assert(want.dom() =~= Set::<Seq<char>>::empty());
                    assert(self@.retained =~= ledger::tidy(m.retained, r));
                } else {
                    proof {
                        if want.dom() =~= Set::<Seq<char>>::empty() {
                            assert(want =~= Map::<Seq<char>, Seq<RetainedView>>::empty());
                        }
                    }
                    self.retained.put(record.dup(), left);
                    assert(self@.retained =~= ledger::tidy(m.retained, r));
                }
            },
        }
    }

    /// Record that `record` has been told of the reports that `snapshots` name.
    pub fn commit_snapshots(&mut self, record: &RecordId, snapshots: &Vec<(String, u64)>)
        ensures
            final(self)@ == ledger::commit_named(
                old(self)@,
                record.deep_view(),
                snapshots.deep_view(),
            ),
            ledger::sound(old(self)@) ==> ledger::sound(final(self)@),
    {
        let ghost m = self@;
        let ghost r = record.deep_view();
        let ghost all = snapshots.deep_view();
        proof {
            crate::soundness::lemma_commit_named(m, r, all);
        }
        if !self.retained.has(record) {
            return ;
        }
        let mut i: usize = 0;
        assert(all.take(0) =~= Seq::empty());
        while i < snapshots.len()
            invariant
                i <= snapshots.len(),
                all == snapshots.deep_view(),
                r == record.deep_view(),
                self@ == ledger::pop_named(m, r, all.take(i as int)),
            decreases snapshots.len() - i,
        {
            proof {
                assert(all.take(i + 1).drop_last() =~= all.take(i as int));
                assert(all.take(i + 1).last() == snapshots@[i as int].deep_view());
            }
            self.pop_if(record, &snapshots[i].0, snapshots[i].1);
            i = i + 1;
        }
        assert(all.take(i as int) =~= all);
        self.tidy(record);
    }
}

/// How many of the oldest reports in `queue` show `told`.
fn count_consumed(queue: &Vec<RetainedFile>, told: Option<u64>) -> (r: usize)
    ensures
        r == ledger::consumed(queue.deep_view(), told),
        r <= queue.len(),
{
    let ghost all = queue.deep_view();
    let mut i: usize = 0;
    assert(all.skip(0) =~= all);
    while i < queue.len() && queue[i].hash == told
        invariant
            i <= queue.len(),
            all == queue.deep_view(),
            ledger::consumed(all, told) == i + ledger::consumed(all.skip(i as int), told),
        decreases queue.len() - i,
    {
        assert(all.skip(i as int)[0] == queue@[i as int].deep_view());
        assert(all.skip(i as int).drop_first() =~= all.skip(i + 1));
        i = i + 1;
    }
    if i < queue.len() {
        assert(all.skip(i as int)[0] == queue@[i as int].deep_view());
    }
    i
}

/// Whether one of the first `n` rows is for `k`.
spec fn among<B>(rows: Seq<(Seq<char>, B)>, n: int, k: Seq<char>) -> bool {
    exists|j: int| 0 <= j < n && (#[trigger] rows[j]).0 == k
}

impl DiagnosticsDelivery {
    /// Take every report kept for `record` that leads its file's queue and shows
    /// what the record was already told.
    #[verifier::rlimit(40)]
    pub fn discard_consumed_snapshots(&mut self, record: &RecordId)
        requires
            ledger::kept_under_key(old(self)@.retained),
        ensures
            final(self)@ == ledger::discard(old(self)@, record.deep_view()),
            ledger::sound(old(self)@) ==> ledger::sound(final(self)@),
    {
        let ghost m = self@;
        let ghost r = record.deep_view();
        proof {
            crate::soundness::lemma_discard(m, r);
        }
        if !self.sessions.has(record) {
            return ;
        }
        match self.retained.take(record) {
            None => {
                assert(self@.retained =~= m.retained);
            },
            Some(files) => {
                let ghost files0 = files@;
                let ghost rows = files.rows();
                let n: usize = files.len();
                proof {
                    table::lemma_rows_map(rows);
                    assert(ledger::files_at(m.retained, r) == files0);
                }
                let mut any = false;
                let mut i: usize = 0;
                while i < n
                    invariant
                        rows == files.rows(),
                        n == rows.len(),
                        i <= n,
                        r == record.deep_view(),
                        m.sessions.dom().contains(r),
                        self@.sessions == m.sessions,
                        forall|j: int|
                            0 <= j < rows.len() ==> ledger::queue_at(
                                m.retained,
                                r,
                                (#[trigger] rows[j]).0,
                            ) == rows[j].1,
                        any == exists|j: int|
                            0 <= j < i && ledger::spent(m, r, (#[trigger] rows[j]).0) > 0,
                    decreases n - i,
                {
                    let told = self.told(record, files.key_at(i));
                    let c = count_consumed(files.value_at(i), told);
                    assert(c == ledger::spent(m, r, rows[i as int].0));
                    if c > 0 {
                        any = true;
                    }
                    i = i + 1;
                }
                if !any {
                    self.retained.put(record.dup(), files);
                    proof {
                        assert(self@.retained =~= m.retained);
                        if ledger::any_spent(m, r) {
                            let key = choose|key: Seq<char>|
                                m.retained[r].dom().contains(key) && #[trigger] ledger::spent(
                                    m,
                                    r,
                                    key,
                                ) > 0;
                            assert(rows[table::row_of(rows, key)].0 == key);
                        }
                    }
                    return ;
                }
                proof {
                    let j = choose|j: int|
                        0 <= j < n && ledger::spent(m, r, (#[trigger] rows[j]).0) > 0;
                    assert(m.retained[r].dom().contains(rows[j].0));
                    assert(ledger::any_spent(m, r));
                }
                let mut left: Table<String, Vec<RetainedFile>> = Table::new();
                let ghost marks = |i: int|
                    m.ownership.map_values(
                        |row: ((Seq<char>, Seq<char>), OwnerView)|
                            if among(rows, i, row.0.1) && ledger::spent_delivers(m, r, row) {
                                ledger::delivered_row(row)
                            } else {
                                row
                            },
                    );
                let ghost rest = |k: Seq<char>| files0[k].skip(ledger::spent(m, r, k) as int);
                assert(marks(0) =~= m.ownership);
                i = 0;
                while i < n
                    invariant
                        rows == files.rows(),
                        n == rows.len(),
                        i <= n,
                        r == record.deep_view(),
                        m.sessions.dom().contains(r),
                        ledger::kept_under_key(m.retained),
                        marks == (|i: int|
                            m.ownership.map_values(
                                |row: ((Seq<char>, Seq<char>), OwnerView)|
                                    if among(rows, i, row.0.1) && ledger::spent_delivers(
                                        m,
                                        r,
                                        row,
                                    ) {
                                        ledger::delivered_row(row)
                                    } else {
                                        row
                                    },
                            )),
                        rest == (|k: Seq<char>|
                            files0[k].skip(ledger::spent(m, r, k) as int)),
                        self@ == (Ledger {
                            retained: m.retained.remove(r),
                            ownership: marks(i as int),
                            ..m
                        }),
                        table::distinct_rows(rows),
                        forall|j: int|
                            0 <= j < rows.len() ==> ledger::queue_at(
                                m.retained,
                                r,
                                (#[trigger] rows[j]).0,
                            ) == rows[j].1 && files0[rows[j].0] == rows[j].1,
                        forall|k: Seq<char>| #[trigger]
                            left@.dom().contains(k) <==> among(rows, i as int, k) && rest(k).len()
                                > 0,
                        forall|k: Seq<char>| #[trigger]
                            left@.dom().contains(k) ==> left@[k] == rest(k),
                    decreases n - i,
                {
                    let ghost now = self@;
                    let ghost key = rows[i as int].0;
                    let ghost before = left@;
                    let told = self.told(record, files.key_at(i));
                    let queue = files.value_at(i);
                    let c = count_consumed(queue, told);
                    let ghost q = queue.deep_view();
                    assert(q == rows[i as int].1);
                    assert(q == ledger::queue_at(m.retained, r, key));
                    assert(c == ledger::spent(m, r, key));
                    self.mark_queue(record, queue, c);
                    proof {
                        assert forall|x: int| 0 <= x < m.ownership.len() implies self@.ownership[x]
                            == marks(i + 1)[x] by {
                            let row = m.ownership[x];
                            let there = now.ownership[x];
                            assert(there.0 == row.0 && there.1.generation == row.1.generation);
                            assert(among(rows, i + 1, row.0.1) == (among(rows, i as int, row.0.1)
                                || row.0.1 == key)) by {
                                if among(rows, i as int, row.0.1) {
                                    let j = choose|j: int|
                                        0 <= j < i && (#[trigger] rows[j]).0 == row.0.1;
                                    assert(rows[j].0 == row.0.1);
                                }
                                if row.0.1 == key {
                                    assert(rows[i as int].0 == key);
                                }
                            }
                            if row.0.1 == key {
                                assert(!among(rows, i as int, key)) by {
                                    if among(rows, i as int, key) {
                                        let j = choose|j: int|
                                            0 <= j < i && (#[trigger] rows[j]).0 == key;
                                        assert(rows[j].0 != rows[i as int].0);
                                    }
                                }
                                if queue_delivers(now, r, q, c as int, there) {
                                    let k = choose|k: int|
                                        0 <= k < c && ledger::delivers(
                                            now,
                                            r,
                                            #[trigger] q[k],
                                            there,
                                        );
                                    assert(ledger::delivers(
                                        m,
                                        r,
                                        ledger::queue_at(m.retained, r, row.0.1)[k],
                                        row,
                                    ));
                                    assert(ledger::spent_delivers(m, r, row));
                                }
                                if ledger::spent_delivers(m, r, row) {
                                    let k = choose|k: int|
                                        0 <= k < ledger::spent(m, r, row.0.1) && ledger::delivers(
                                            m,
                                            r,
                                            #[trigger] ledger::queue_at(m.retained, r, row.0.1)[k],
                                            row,
                                        );
                                    assert(ledger::delivers(now, r, q[k], there));
                                    assert(queue_delivers(now, r, q, c as int, there));
                                }
                            } else {
                                if queue_delivers(now, r, q, c as int, there) {
                                    let k = choose|k: int|
                                        0 <= k < c && ledger::delivers(
                                            now,
                                            r,
                                            #[trigger] q[k],
                                            there,
                                        );
                                    assert(ledger::queue_at(m.retained, r, key)[k].file.key == key);
                                }
                            }
                        }
                        assert(self@.ownership =~= marks(i + 1));
                    }
                    if c < queue.len() {
                        let copy = dup_queue_from(queue, c);
                        left.put(files.key_at(i).dup(), copy);
                    }
                    proof {
                        assert(rest(key) == q.skip(c as int));
                        assert forall|k: Seq<char>| #[trigger]
                            left@.dom().contains(k) <==> among(rows, i + 1, k) && rest(k).len()
                                > 0 by {
                            if among(rows, i as int, k) {
                                let j = choose|j: int|
                                    0 <= j < i && (#[trigger] rows[j]).0 == k;
                                assert(rows[j].0 == k);
                                assert(k != key) by {
                                    assert(rows[j].0 != rows[i as int].0);
                                }
                                assert(among(rows, i + 1, k));
                            }
                            if k == key {
                                assert(rows[i as int].0 == k);
                                assert(among(rows, i + 1, k));
                            }
                        }
                    }
                    i = i + 1;
                }
                proof {
                    let all = Map::new(
                        |k: Seq<char>| files0.dom().contains(k),
                        |k: Seq<char>| files0[k].skip(ledger::spent(m, r, k) as int),
                    );
                    let want = Map::new(
                        |k: Seq<char>| all.dom().contains(k) && all[k].len() > 0,
                        |k: Seq<char>| all[k],
                    );
                    assert forall|k: Seq<char>| #[trigger]
                        left@.dom().contains(k) == want.dom().contains(k) by {
                        if files0.dom().contains(k) {
                            assert(rows[table::row_of(rows, k)].0 == k);
                            assert(among(rows, n as int, k));
                        }
                        if among(rows, n as int, k) {
                            let j = choose|j: int| 0 <= j < n && (#[trigger] rows[j]).0 == k;
                            assert(files0.dom().contains(rows[j].0));
                        }
                    }
                    assert(left@ =~= want);
                    let full = m.retained.insert(r, all);
                    assert(full[r] == all);
                    assert(ledger::tidy(full, r) =~= if want.dom() =~= Set::<Seq<char>>::empty() {
                        m.retained.remove(r)
                    } else {
                        m.retained.insert(r, want)
                    });
                    assert forall|x: int| 0 <= x < m.ownership.len() implies marks(n as int)[x]
                        == ledger::discard(m, r).ownership[x] by {
                        let row = m.ownership[x];
                        if ledger::spent_delivers(m, r, row) {
                            let k = choose|k: int|
                                0 <= k < ledger::spent(m, r, row.0.1) && ledger::delivers(
                                    m,
                                    r,
                                    #[trigger] ledger::queue_at(m.retained, r, row.0.1)[k],
                                    row,
                                );
                            assert(files0.dom().contains(row.0.1));
                            assert(rows[table::row_of(rows, row.0.1)].0 == row.0.1);
                            assert(among(rows, n as int, row.0.1));
                        }
                    }
                    assert(marks(n as int) =~= ledger::discard(m, r).ownership);
                    if left@.dom() =~= Set::<Seq<char>>::empty() {
                        assert(left@ =~= Map::<Seq<char>, Seq<RetainedView>>::empty());
                    }
                }
                if !left.is_empty() {
                    self.retained.put(record.dup(), left);
                }
                assert(self@.retained =~= ledger::discard(m, r).retained);
            },
        }
    }
}

/// One list holds the files of a map in the order of their keys.
pub proof fn lemma_key_order_unique(
    files: Map<Seq<char>, EntryView>,
    a: Seq<EntryView>,
    b: Seq<EntryView>,
)
    requires
        ledger::in_key_order(files, a),
        ledger::in_key_order(files, b),
    ensures
        a == b,
    decreases a.len(),
{
    if a.len() == 0 {
        if b.len() > 0 {
            assert(files.dom().contains(b[0].key));
            let i = choose|i: int| 0 <= i < a.len() && (#[trigger] a[i]).key == b[0].key;
        }
        assert(a =~= b);
    } else if b.len() == 0 {
        assert(files.dom().contains(a[0].key));
        let i = choose|i: int| 0 <= i < b.len() && (#[trigger] b[i]).key == a[0].key;
        assert(false);
    } else {
        assert(files.dom().contains(a[0].key) && files.dom().contains(b[0].key));
        let i = choose|i: int| 0 <= i < b.len() && (#[trigger] b[i]).key == a[0].key;
        let j = choose|j: int| 0 <= j < a.len() && (#[trigger] a[j]).key == b[0].key;
        crate::text::lemma_text_order();
        let order = crate::text::text_order();
        assert(order(a[0].key, a[0].key));
        assert(order(b[0].key, b[0].key));
        assert(crate::text::text_leq(a[0].key, a[j].key));
        assert(crate::text::text_leq(b[0].key, b[i].key));
        assert(order(a[0].key, b[0].key) && order(b[0].key, a[0].key));
        assert(a[0].key == b[0].key);
        assert(a[0] == b[0]);
        let rest = files.remove(a[0].key);
        lemma_key_order_tail(files, a);
        lemma_key_order_tail(files, b);
        lemma_key_order_unique(rest, a.drop_first(), b.drop_first());
        assert(a =~= seq![a[0]] + a.drop_first());
        assert(b =~= seq![b[0]] + b.drop_first());
    }
}

proof fn lemma_key_order_tail(files: Map<Seq<char>, EntryView>, a: Seq<EntryView>)
    requires
        ledger::in_key_order(files, a),
        a.len() > 0,
    ensures
        ledger::in_key_order(files.remove(a[0].key), a.drop_first()),
{
    let rest = files.remove(a[0].key);
    let tail = a.drop_first();
    assert forall|i: int, j: int| 0 <= i < j < tail.len() implies (#[trigger] tail[i]).key != (
    #[trigger] tail[j]).key && crate::text::text_leq(tail[i].key, tail[j].key) by {
        assert(a[i + 1].key != a[j + 1].key);
    }
    assert forall|i: int| 0 <= i < tail.len() implies rest.dom().contains((#[trigger] tail[i]).key)
        && rest[tail[i].key] == tail[i] by {
        assert(a[0].key != a[i + 1].key);
    }
    assert forall|k: Seq<char>| #[trigger] rest.dom().contains(k) implies exists|i: int|
        0 <= i < tail.len() && (#[trigger] tail[i]).key == k by {
        assert(files.dom().contains(k));
        let i = choose|i: int| 0 <= i < a.len() && (#[trigger] a[i]).key == k;
        assert(tail[i - 1].key == k);
    }
}

/// Put `e` into its place in `list`, over an entry for the same file.
fn place_entry(list: &mut Vec<OwnedEntry>, e: OwnedEntry, files: Ghost<Map<Seq<char>, EntryView>>)
    requires
        ledger::in_key_order(files@, old(list).deep_view()),
    ensures
        ledger::in_key_order(
            files@.insert(e.key@, e.deep_view()),
            final(list).deep_view(),
        ),
{
    let ghost before = list.deep_view();
    let ghost v = e.deep_view();
    let ghost want = files@.insert(v.key, v);
    let mut at: usize = 0;
    while at < list.len() && list[at].key != e.key && crate::text::no_later(
        list[at].key.as_str(),
        e.key.as_str(),
    )
        invariant
            at <= list.len(),
            before == list.deep_view(),
            v == e.deep_view(),
            forall|j: int|
                0 <= j < at ==> (#[trigger] before[j]).key != v.key && crate::text::text_leq(
                    before[j].key,
                    v.key,
                ),
        decreases list.len() - at,
    {
        assert(before[at as int].key == list@[at as int].key@);
        at = at + 1;
    }
    if at < list.len() && list[at].key == e.key {
        assert(before[at as int].key == v.key);
        list.set(at, e);
        proof {
            let after = list.deep_view();
            assert(after =~= before.update(at as int, v));
            assert forall|i: int, j: int| 0 <= i < j < after.len() implies (#[trigger]
            after[i]).key != (#[trigger] after[j]).key && crate::text::text_leq(
                after[i].key,
                after[j].key,
            ) by {
                assert(before[i].key != before[j].key);
            }
            assert forall|i: int| 0 <= i < after.len() implies want.dom().contains(
                (#[trigger] after[i]).key,
            ) && want[after[i].key] == after[i] by {
                if i != at {
                    assert(files@.dom().contains(before[i].key));
                    if i < at {
                        assert(before[i].key != before[at as int].key);
                    } else {
                        assert(before[at as int].key != before[i].key);
                    }
                }
            }
            assert forall|k: Seq<char>| #[trigger] want.dom().contains(k) implies exists|i: int|
                0 <= i < after.len() && (#[trigger] after[i]).key == k by {
                if k == v.key {
                    assert(after[at as int].key == k);
                } else {
                    assert(files@.dom().contains(k));
                    let i = choose|i: int| 0 <= i < before.len() && (#[trigger] before[i]).key == k;
                    assert(after[i].key == k);
                }
            }
        }
    } else {
        proof {
            assert forall|j: int| at <= j < before.len() implies (#[trigger] before[j]).key
                != v.key && crate::text::text_leq(v.key, before[j].key) by {
                assert(before[at as int].key == list@[at as int].key@);
                crate::text::lemma_text_leq_total(before[at as int].key, v.key);
                if j > at {
                    assert(before[at as int].key != before[j].key);
                    crate::text::lemma_text_leq_transitive(
                        v.key,
                        before[at as int].key,
                        before[j].key,
                    );
                    if before[j].key == v.key {
                        crate::text::lemma_text_order();
                        let order = crate::text::text_order();
                        assert(order(before[at as int].key, before[j].key));
                        assert(order(v.key, before[at as int].key));
                    }
                }
            }
        }
        list.insert(at, e);
        proof {
            let after = list.deep_view();
            assert(after =~= before.insert(at as int, v));
            assert forall|i: int, j: int| 0 <= i < j < after.len() implies (#[trigger]
            after[i]).key != (#[trigger] after[j]).key && crate::text::text_leq(
                after[i].key,
                after[j].key,
            ) by {
                let i0 = if i < at { i } else { i - 1 };
                let j0 = if j < at { j } else { j - 1 };
                if i != at && j != at {
                    assert(before[i0].key != before[j0].key);
                } else if i == at {
                    assert(before[j0].key != v.key);
                } else {
                    assert(before[i0].key != v.key);
                }
            }
            assert forall|i: int| 0 <= i < after.len() implies want.dom().contains(
                (#[trigger] after[i]).key,
            ) && want[after[i].key] == after[i] by {
                let i0 = if i < at { i } else { i - 1 };
                if i != at {
                    assert(files@.dom().contains(before[i0].key));
                }
            }
            assert forall|k: Seq<char>| #[trigger] want.dom().contains(k) implies exists|i: int|
                0 <= i < after.len() && (#[trigger] after[i]).key == k by {
                if k == v.key {
                    assert(after[at as int].key == k);
                } else {
                    assert(files@.dom().contains(k));
                    let i0 = choose|i: int| 0 <= i < before.len() && (#[trigger] before[i]).key == k;
                    let i = if i0 < at { i0 } else { i0 + 1 };
                    assert(after[i].key == k);
                }
            }
        }
    }
}

impl DiagnosticsDelivery {
    /// What `record` reads, in the order of the files' keys: the oldest report
    /// kept for it, and where none is, the current state as far as it is
    /// admitted to it.
    pub fn routed_entries(&self, record: &RecordId, entries: &[FileEntry<'_>]) -> (r: Vec<
        OwnedEntry,
    >)
        requires
            ledger::kept_under_key(self@.retained),
        ensures
            r.deep_view() == ledger::route(self@, record.deep_view(), entries.deep_view()),
            ledger::in_key_order(
                ledger::routed(self@, record.deep_view(), entries.deep_view()),
                r.deep_view(),
            ),
    {
        let ghost m = self@;
        let ghost who = record.deep_view();
        let ghost all = entries.deep_view();
        let mut list: Vec<OwnedEntry> = Vec::new();
        let mut i: usize = 0;
        let registered = self.roots.has(record);
        assert(all.take(0) =~= Seq::empty());
        while i < entries.len()
            invariant
                i <= entries.len(),
                all == entries.deep_view(),
                m == self@,
                who == record.deep_view(),
                registered == m.roots.dom().contains(who),
                ledger::in_key_order(
                    ledger::current_for(m, who, all.take(i as int)),
                    list.deep_view(),
                ),
            decreases entries.len() - i,
        {
            let entry = &entries[i];
            proof {
                assert(all.take(i + 1).drop_last() =~= all.take(i as int));
                assert(all.take(i + 1).last() == entry.deep_view());
            }
            let key = entry.key.to_owned();
            if !registered || self.falls_back(record, &key) {
                place_entry(
                    &mut list,
                    OwnedEntry::of(entry),
                    Ghost(ledger::current_for(m, who, all.take(i as int))),
                );
            }
            i = i + 1;
        }
        assert(all.take(i as int) =~= all);
        let ghost current = ledger::current_for(m, who, all);
        let ghost whole = ledger::routed(m, who, all);
        match self.retained.get(record) {
            None => {
                assert(whole =~= current);
            },
            Some(files) => {
                let ghost rows = files.rows();
                let n: usize = files.len();
                let mut j: usize = 0;
                let ghost over = |j: int|
                    Map::new(
                        |k: Seq<char>|
                            current.dom().contains(k) || (among(rows, j, k) && ledger::queue_at(
                                m.retained,
                                who,
                                k,
                            ).len() > 0),
                        |k: Seq<char>|
                            if among(rows, j, k) && ledger::queue_at(m.retained, who, k).len() > 0 {
                                ledger::queue_at(m.retained, who, k)[0].file
                            } else {
                                current[k]
                            },
                    );
                proof {
                    table::lemma_rows_map(rows);
                    assert(ledger::files_at(m.retained, who) == files@);
                    assert(over(0) =~= current);
                }
                while j < n
                    invariant
                        j <= n,
                        n == rows.len(),
                        rows == files.rows(),
                        table::distinct_rows(rows),
                        ledger::kept_under_key(m.retained),
                        over == (|j: int|
                            Map::new(
                                |k: Seq<char>|
                                    current.dom().contains(k) || (among(rows, j, k)
                                        && ledger::queue_at(m.retained, who, k).len() > 0),
                                |k: Seq<char>|
                                    if among(rows, j, k) && ledger::queue_at(
                                        m.retained,
                                        who,
                                        k,
                                    ).len() > 0 {
                                        ledger::queue_at(m.retained, who, k)[0].file
                                    } else {
                                        current[k]
                                    },
                            )),
                        forall|x: int|
                            0 <= x < rows.len() ==> ledger::queue_at(
                                m.retained,
                                who,
                                (#[trigger] rows[x]).0,
                            ) == rows[x].1,
                        ledger::in_key_order(over(j as int), list.deep_view()),
                    decreases n - j,
                {
                    let queue = files.value_at(j);
                    let ghost key = rows[j as int].0;
                    let ghost q = ledger::queue_at(m.retained, who, key);
                    assert(q == queue.deep_view());
                    proof {
                        assert forall|k: Seq<char>| #[trigger]
                            among(rows, j + 1, k) == (among(rows, j as int, k) || k == key) by {
                            if among(rows, j as int, k) {
                                let x = choose|x: int| 0 <= x < j && (#[trigger] rows[x]).0 == k;
                                assert(rows[x].0 == k);
                            }
                            assert(rows[j as int].0 == key);
                        }
                    }
                    if queue.len() > 0 {
                        let e = queue[0].file.dup();
                        assert(e.deep_view() == q[0].file);
                        assert(q[0].file.key == key);
                        assert(over(j + 1) =~= over(j as int).insert(key, q[0].file));
                        place_entry(&mut list, e, Ghost(over(j as int)));
                    } else {
                        assert(over(j + 1) =~= over(j as int));
                    }
                    j = j + 1;
                }
                proof {
                    assert forall|k: Seq<char>|
                        ledger::queue_at(m.retained, who, k).len() > 0 implies #[trigger] among(
                        rows,
                        n as int,
                        k,
                    ) by {
                        assert(files@.dom().contains(k));
                        assert(rows[table::row_of(rows, k)].0 == k);
                    }
                    assert(over(n as int) =~= whole);
                }
            },
        }
        proof {
            lemma_key_order_unique(whole, list.deep_view(), ledger::route(m, who, all));
        }
        list
    }

    /// The caller that `record` was registered as.
    pub fn caller(&self, record: RecordId) -> (r: Caller)
        ensures
            r.record.deep_view() == record.deep_view(),
            r.root.deep_view() == match ledger::lookup(self@.roots, record.deep_view()) {
                Some(root) => root,
                None => None,
            },
    {
        let root = match self.roots.get(&record) {
            Some(root) => dup_session(root),
            None => None,
        };
        Caller { record, root }
    }

    /// Point reports already kept under cycle `from` at cycle `to`.
    fn restamp_retained(&mut self, file: &String, from: u64, to: u64)
        ensures
            final(self)@ == (Ledger {
                retained: ledger::restamp(old(self)@.retained, file@, from, to),
                ..old(self)@
            }),
    {
        let ghost m = self@;
        let ghost rows = self.retained.rows();
        let n: usize = self.retained.len();
        let ghost f = |files: Map<Seq<char>, Seq<RetainedView>>|
            if files.dom().contains(file@) {
                files.insert(file@, ledger::restamped(files[file@], from, to))
            } else {
                files
            };
        let mut i: usize = 0;
        while i < n
            invariant
                n == rows.len(),
                i <= n,
                table::distinct_rows(rows),
                f == (|files: Map<Seq<char>, Seq<RetainedView>>|
                    if files.dom().contains(file@) {
                        files.insert(file@, ledger::restamped(files[file@], from, to))
                    } else {
                        files
                    }),
                self@ == (Ledger { retained: self@.retained, ..m }),
                self.retained.rows().len() == n,
                forall|j: int|
                    0 <= j < n ==> (#[trigger] self.retained.rows()[j]).0 == rows[j].0
                        && self.retained.rows()[j].1 == if j < i {
                        f(rows[j].1)
                    } else {
                        rows[j].1
                    },
            decreases n - i,
        {
            let files = self.retained.value_at(i);
            let ghost files0 = files.deep_view();
            assert(files0 == rows[i as int].1);
            let mut updated: Option<Vec<RetainedFile>> = None;
            match files.get(file) {
                Some(queue) => {
                    updated = Some(restamped_queue(queue, from, to));
                },
                None => {},
            }
            match updated {
                Some(queue) => {
                    let mut copy = dup_files(files);
                    copy.put(file.clone(), queue);
                    assert(copy@ =~= f(files0));
                    self.retained.set_at(i, copy);
                },
                None => {
                    assert(f(files0) =~= files0);
                },
            }
            i = i + 1;
        }
        proof {
            let after = self.retained.rows();
            crate::table::lemma_same_keys(rows, after);
            table::lemma_rows_map(rows);
            table::lemma_rows_map(after);
            let want = ledger::restamp(m.retained, file@, from, to);
            assert forall|w: RecordView| #[trigger]
                want.dom().contains(w) implies self@.retained[w] == want[w] by {
                let j = table::row_of(rows, w);
                assert(rows[j].0 == w);
                assert(after[j].0 == w);
            }
            assert(self@.retained =~= want);
        }
    }

    /// The owner of file `key` under `from` becomes its owner under `root`.
    fn adopt_one(&mut self, from: &SessionId, root: &SessionId, key: &String)
        ensures
            final(self)@ == ledger::adopt_file(old(self)@, from@, root@, key@),
    {
        let ghost m = self@;
        let ghost rows = m.ownership;
        let size = self.ownership.len();
        proof {
            table::lemma_rows_map(rows);
        }
        let at = (from.dup(), key.clone());
        assert(at.deep_view() == (from@, key@));
        match self.ownership.take(&at) {
            None => {},
            Some(owner) => {
                let size = self.ownership.len();
                let ghost rest = self.ownership.rows();
                proof {
                    table::lemma_rows_map(rest);
                }
                let to = (root.dup(), key.clone());
                assert(to.deep_view() == (root@, key@));
                match self.ownership.take(&to) {
                    None => {
                        self.ownership.put(to, owner);
                    },
                    Some(existing) => {
                        let merged = self.merge_ownership(key, owner, existing);
                        self.ownership.put(to, merged);
                    },
                }
            },
        }
    }

    /// Reconcile an adopted owner with one the root already had for `file`.
    fn merge_ownership(&mut self, file: &String, owner: Ownership, existing: Ownership) -> (r:
        Ownership)
        ensures
            r.deep_view() == ledger::merge_owner(owner.deep_view(), existing.deep_view()),
            final(self)@ == (Ledger {
                retained: if existing.delivered == owner.delivered {
                    ledger::restamp(
                        old(self)@.retained,
                        file@,
                        existing.generation,
                        owner.generation,
                    )
                } else {
                    old(self)@.retained
                },
                ..old(self)@
            }),
    {
        if existing.delivered != owner.delivered {
            if existing.delivered {
                owner
            } else {
                existing
            }
        } else {
            let mut merged = owner;
            let ghost start = merged.writers@;
            let ghost extra = existing.writers.items();
            let n: usize = existing.writers.len();
            let mut i: usize = 0;
            assert(start.union(extra.take(0).to_set()) =~= start);
            while i < n
                invariant
                    extra == existing.writers.items(),
                    n == extra.len(),
                    i <= n,
                    merged.generation == owner.generation,
                    merged.delivered == owner.delivered,
                    merged.writers@ == start.union(extra.take(i as int).to_set()),
                decreases n - i,
            {
                let ghost part = extra.take(i as int);
                merged.writers.add(existing.writers.item_at(i).dup());
                proof {
                    assert(extra.take(i + 1) =~= part.push(extra[i as int]));
                    assert forall|x: RecordView| #[trigger]
                        part.push(extra[i as int]).to_set().contains(x) == part.to_set().insert(
                            extra[i as int],
                        ).contains(x) by {
                        if part.contains(x) {
                            let j = choose|j: int| 0 <= j < part.len() && part[j] == x;
                            assert(part.push(extra[i as int])[j] == x);
                        }
                        assert(part.push(extra[i as int])[part.len() as int] == extra[i as int]);
                    }
                    assert(merged.writers@ =~= start.union(extra.take(i + 1).to_set()));
                }
                i = i + 1;
            }
            assert(extra.take(i as int) =~= extra);
            self.restamp_retained(file, existing.generation, merged.generation);
            merged
        }
    }

    /// Re-key everything `provisional` owns onto `root`.
    fn adopt_ownership(&mut self, provisional: &SessionId, root: &SessionId)
        ensures
            final(self)@ == ledger::adopt(old(self)@, provisional@, root@),
    {
        let ghost m = self@;
        let ghost rows = m.ownership;
        let mut keys: Vec<String> = Vec::new();
        let n: usize = self.ownership.len();
        let mut i: usize = 0;
        proof {
            reveal(Seq::filter);
            assert(rows.take(0) =~= Seq::empty());
            assert(keys.deep_view() =~= ledger::files_of(rows.take(0), provisional@));
        }
        while i < n
            invariant
                self@ == m,
                rows == self.ownership.rows(),
                n == rows.len(),
                i <= n,
                keys.deep_view() == ledger::files_of(rows.take(i as int), provisional@),
            decreases n - i,
        {
            let ghost before = keys.deep_view();
            let ghost row = rows[i as int];
            let at = self.ownership.key_at(i);
            proof {
                let part = rows.take(i as int);
                assert(rows.take(i + 1) =~= part.push(row));
                assert(part.push(row).drop_last() =~= part);
                reveal(Seq::filter);
            }
            if at.0.same(provisional) {
                keys.push(at.1.clone());
                assert(keys.deep_view() =~= before.push(row.0.1));
                assert(ledger::files_of(rows.take(i + 1), provisional@) =~= before.push(row.0.1));
            } else {
                assert(ledger::files_of(rows.take(i + 1), provisional@) =~= before);
            }
            i = i + 1;
        }
        assert(rows.take(i as int) =~= rows);
        let ghost all = keys.deep_view();
        let mut j: usize = 0;
        assert(all.take(0) =~= Seq::empty());
        while j < keys.len()
            invariant
                j <= keys.len(),
                all == keys.deep_view(),
                self@ == ledger::adopt_files(m, provisional@, root@, all.take(j as int)),
            decreases keys.len() - j,
        {
            proof {
                assert(all.take(j + 1).drop_last() =~= all.take(j as int));
                assert(all.take(j + 1).last() == keys@[j as int]@);
            }
            self.adopt_one(provisional, root, &keys[j]);
            j = j + 1;
        }
        assert(all.take(j as int) =~= all);
    }

    /// Associate a caller's record with its root session when known.
    pub fn register_caller(&mut self, caller: &Caller)
        ensures
            final(self)@ == ledger::register(old(self)@, caller.deep_view()),
            ledger::sound(old(self)@) ==> ledger::sound(final(self)@),
    {
        proof {
            if ledger::sound(self@) {
                soundness::law_register_keeps_sound(self@, caller.deep_view());
            }
        }
        let rooted = match self.roots.get(&caller.record) {
            Some(Some(_)) => true,
            _ => false,
        };
        match &caller.root {
            None => {
                if !self.roots.has(&caller.record) {
                    self.roots.put(caller.record.dup(), None);
                }
            },
            Some(root) => {
                if let RecordId::Session(own) = &caller.record {
                    if !rooted && !own.same(root) {
                        self.adopt_ownership(own, root);
                    }
                }
                self.roots.put(caller.record.dup(), Some(root.dup()));
            },
        }
    }

    /// `record` wrote file `key` under `root`.
    fn claim(&mut self, root: &SessionId, key: &String, record: &RecordId)
        requires
            old(self)@.next_generation < u64::MAX,
        ensures
            final(self)@ == ledger::claim(old(self)@, root@, key@, record.deep_view()),
            final(self)@.next_generation <= old(self)@.next_generation + 1,
    {
        let at = (root.dup(), key.clone());
        assert(at.deep_view() == (root@, key@));
        let mut joined: Option<Ownership> = None;
        match self.ownership.get(&at) {
            Some(owner) => {
                if owner.generation != 0 && !owner.delivered {
                    let mut copy = owner.dup();
                    copy.writers.add(record.dup());
                    joined = Some(copy);
                }
            },
            None => {},
        }
        match joined {
            Some(owner) => {
                self.ownership.put(at, owner);
            },
            None => {
                self.next_generation = self.next_generation + 1;
                let mut writers: KeySet<RecordId> = KeySet::new();
                writers.add(record.dup());
                self.ownership.put(
                    at,
                    Ownership { generation: self.next_generation, delivered: false, writers },
                );
            },
        }
    }

    /// Attribute changed URI keys to the issuing caller.
    pub fn record_write(&mut self, caller: &Caller, keys: &[String])
        requires
            old(self)@.next_generation + keys.len() <= u64::MAX,
        ensures
            final(self)@ == ledger::write(old(self)@, caller.deep_view(), keys.deep_view()),
            ledger::sound(old(self)@) ==> ledger::sound(final(self)@),
    {
        proof {
            if ledger::sound(self@) {
                soundness::law_write_keeps_sound(self@, caller.deep_view(), keys.deep_view());
            }
            lemma_register_keeps_counters(self@, caller.deep_view());
        }
        self.register_caller(caller);
        let ghost known = self@;
        let root = match self.roots.get(&caller.record) {
            Some(Some(root)) => root.dup(),
            _ => caller.record.session().dup(),
        };
        let ghost who = caller.record.deep_view();
        assert(root@ == ledger::owning_root(known, who, who.session()));
        let ghost all = keys.deep_view();
        let mut i: usize = 0;
        assert(all.take(0) =~= Seq::empty());
        while i < keys.len()
            invariant
                i <= keys.len(),
                all == keys.deep_view(),
                who == caller.record.deep_view(),
                known.next_generation + keys.len() <= u64::MAX,
                self@ == ledger::claim_all(known, root@, all.take(i as int), who),
                self@.next_generation <= known.next_generation + i,
            decreases keys.len() - i,
        {
            proof {
                assert(all.take(i + 1).drop_last() =~= all.take(i as int));
                assert(all.take(i + 1).last() == keys@[i as int]@);
            }
            self.claim(&root, &keys[i], &caller.record);
            i = i + 1;
        }
        assert(all.take(i as int) =~= all);
    }
}

/// Registering a caller begins no cycle.
pub proof fn lemma_register_keeps_counters(m: Ledger, caller: CallerView)
    ensures
        ledger::register(m, caller).next_generation == m.next_generation,
        ledger::register(m, caller).next_snapshot == m.next_snapshot,
        ledger::register(m, caller).next_token == m.next_token,
{
    match (ledger::provisional(m, caller), caller.root) {
        (Some(own), Some(root)) => {
            lemma_adopt_keeps(m, own, root, ledger::files_of(m.ownership, own));
        },
        _ => {},
    }
}

/// Adopting files changes who owns them and the cycles of their kept reports,
/// nothing else.
pub proof fn lemma_adopt_keeps(m: Ledger, from: Seq<char>, root: Seq<char>, keys: Seq<Seq<char>>)
    ensures
        ({
            let after = ledger::adopt_files(m, from, root, keys);
            after == (Ledger { ownership: after.ownership, retained: after.retained, ..m })
        }),
    decreases keys.len(),
{
    if keys.len() > 0 {
        lemma_adopt_keeps(m, from, root, keys.drop_last());
    }
}

/// The reports of `queue` with those of cycle `from` as of cycle `to`.
fn restamped_queue(queue: &Vec<RetainedFile>, from: u64, to: u64) -> (r: Vec<RetainedFile>)
    ensures
        r.deep_view() == ledger::restamped(queue.deep_view(), from, to),
{
    let mut r = dup_queue(queue);
    let ghost all = queue.deep_view();
    let mut i: usize = 0;
    while i < r.len()
        invariant
            i <= r.len(),
            r.len() == all.len(),
            forall|j: int|
                0 <= j < all.len() ==> (#[trigger] r.deep_view()[j]) == if j < i {
                    ledger::restamped(all, from, to)[j]
                } else {
                    all[j]
                },
        decreases r.len() - i,
    {
        let ghost before = r.deep_view();
        assert(before[i as int] == all[i as int]);
        if r[i].generation == from {
            let mut report = r[i].dup();
            report.generation = to;
            let ghost v = report.deep_view();
            r.set(i, report);
            assert(r.deep_view() =~= before.update(i as int, v));
        }
        i = i + 1;
    }
    assert(r.deep_view() =~= ledger::restamped(all, from, to));
    r
}

/// A second table of the same queues.
fn dup_files(files: &Table<String, Vec<RetainedFile>>) -> (r: Table<String, Vec<RetainedFile>>)
    ensures
        r@ == files@,
{
    let ghost rows = files.rows();
    let n: usize = files.len();
    let mut r: Table<String, Vec<RetainedFile>> = Table::new();
    let mut i: usize = 0;
    proof {
        table::lemma_rows_map(rows);
    }
    while i < n
        invariant
            rows == files.rows(),
            n == rows.len(),
            i <= n,
            table::distinct_rows(rows),
            forall|k: Seq<char>| #[trigger] r@.dom().contains(k) <==> among(rows, i as int, k),
            forall|j: int|
                0 <= j < i ==> r@.dom().contains((#[trigger] rows[j]).0) && r@[rows[j].0]
                    == rows[j].1,
        decreases n - i,
    {
        let ghost before = r@;
        let copy = dup_queue(files.value_at(i));
        r.put(files.key_at(i).dup(), copy);
        proof {
            assert forall|k: Seq<char>| #[trigger]
                r@.dom().contains(k) <==> among(rows, i + 1, k) by {
                if among(rows, i as int, k) {
                    let j = choose|j: int| 0 <= j < i && (#[trigger] rows[j]).0 == k;
                    assert(rows[j].0 == k);
                    assert(before.dom().contains(k));
                    assert(among(rows, i + 1, k));
                }
                if k == rows[i as int].0 {
                    assert(among(rows, i + 1, k));
                }
                if among(rows, i + 1, k) {
                    let j = choose|j: int| 0 <= j < i + 1 && (#[trigger] rows[j]).0 == k;
                    if j < i {
                        assert(among(rows, i as int, k));
                        assert(before.dom().contains(k));
                    }
                }
            }
            assert forall|j: int| 0 <= j < i + 1 implies r@.dom().contains((#[trigger] rows[j]).0)
                && r@[rows[j].0] == rows[j].1 by {
                if j < i {
                    assert(rows[j].0 != rows[i as int].0);
                }
            }
        }
        i = i + 1;
    }
    proof {
        assert forall|k: Seq<char>| #[trigger] r@.dom().contains(k) == files@.dom().contains(k) by {
            if files@.dom().contains(k) {
                assert(rows[table::row_of(rows, k)].0 == k);
            }
            if r@.dom().contains(k) {
                let j = choose|j: int| 0 <= j < n && (#[trigger] rows[j]).0 == k;
                assert(files@.dom().contains(rows[j].0));
            }
        }
        assert forall|k: Seq<char>| #[trigger] r@.dom().contains(k) implies r@[k] == files@[k] by {
            assert(files@.dom().contains(k));
            assert(rows[table::row_of(rows, k)].0 == k);
        }
        assert(r@ =~= files@);
    }
    r
}

/// A second queue of the same reports.
fn dup_queue(queue: &Vec<RetainedFile>) -> (r: Vec<RetainedFile>)
    ensures
        r.deep_view() == queue.deep_view(),
{
    dup_queue_from(queue, 0)
}

/// A second queue of the reports from `start` on.
fn dup_queue_from(queue: &Vec<RetainedFile>, start: usize) -> (r: Vec<RetainedFile>)
    requires
        start <= queue.len(),
    ensures
        r.deep_view() == queue.deep_view().skip(start as int),
{
    let mut r: Vec<RetainedFile> = Vec::new();
    let mut i: usize = start;
    let ghost all = queue.deep_view();
    assert(r.deep_view() =~= all.subrange(start as int, start as int));
    while i < queue.len()
        invariant
            start <= i <= queue.len(),
            all == queue.deep_view(),
            r.deep_view() == all.subrange(start as int, i as int),
        decreases queue.len() - i,
    {
        let ghost before = r.deep_view();
        let item = queue[i].dup();
        let ghost v = item.deep_view();
        r.push(item);
        assert(r.deep_view() =~= before.push(v));
        assert(all.subrange(start as int, i + 1) =~= before.push(v));
        i = i + 1;
    }
    assert(all.subrange(start as int, i as int) =~= all.skip(start as int));
    r
}

/// Whether one of the first `n` of `queue` delivers the owner in `row`.
spec fn queue_delivers(
    m: Ledger,
    record: RecordView,
    queue: Seq<RetainedView>,
    n: int,
    row: ((Seq<char>, Seq<char>), OwnerView),
) -> bool {
    exists|k: int| 0 <= k < n && ledger::delivers(m, record, #[trigger] queue[k], row)
}

/// Numbering reports does not change whom they are offered to.
proof fn lemma_offer_ignores_counter(
    a: Ledger,
    b: Ledger,
    retained: ledger::Queues,
    writers: Set<RecordView>,
    report: RetainedView,
)
    requires
        a.sessions == b.sessions,
        a.baseline == b.baseline,
    ensures
        ledger::offer_writers(a, retained, writers, report) == ledger::offer_writers(
            b,
            retained,
            writers,
            report,
        ),
{
    assert(ledger::offer_writers(a, retained, writers, report) =~= ledger::offer_writers(
        b,
        retained,
        writers,
        report,
    ));
}

/// Keeping reports changes the kept reports and their numbering, nothing else.
pub proof fn lemma_observe_keeps(m: Ledger, e: EntryView, to: Seq<Recipient>)
    ensures
        ({
            let after = ledger::observe_recipients(m, e, to);
            after == (Ledger {
                retained: after.retained,
                next_snapshot: after.next_snapshot,
                ..m
            })
        }),
    decreases to.len(),
{
    if to.len() > 0 {
        lemma_observe_keeps(m, e, to.drop_last());
    }
}

} // verus!
