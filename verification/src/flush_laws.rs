//! What one flush after another tells a record.

use crate::delivery_laws;
use crate::identity::RecordView;
use crate::ledger;
use crate::ledger::{EntryView, Ledger, Owners, Queues, Record, Recipient};
use crate::soundness;
use crate::table;
use crate::telling_laws;
use crate::text;
use vstd::prelude::*;

verus! {

/// What keeping reports of one file does to one queue, exactly: where the writer
/// is among the recipients and the file shows something new, one report is kept.
proof fn lemma_recipients_exact(
    m: Ledger,
    e: EntryView,
    to: Seq<Recipient>,
    w: RecordView,
    k: Seq<char>,
)
    ensures
        ({
            let q0 = ledger::queue_at(m.retained, w, k);
            let q1 = ledger::queue_at(ledger::observe_recipients(m, e, to).retained, w, k);
            let shown = if q0.len() > 0 {
                q0.last().hash
            } else {
                ledger::committed(m, w, k)
            };
            if k == e.key && delivery_laws::addressed(to, w) && shown != e.hash() {
                &&& q1.len() == q0.len() + 1
                &&& q1.drop_last() == q0
                &&& q1.last().file == e
                &&& q1.last().hash == e.hash()
            } else {
                q1 == q0
            }
        }),
    decreases to.len(),
{
    if to.len() > 0 {
        let init = to.drop_last();
        let last = to.last();
        lemma_recipients_exact(m, e, init, w, k);
        crate::attribution::lemma_observe_keeps(m, e, init);
        let before = ledger::observe_recipients(m, e, init);
        let after = ledger::observe_recipients(m, e, to);
        let q0 = ledger::queue_at(m.retained, w, k);
        let qm = ledger::queue_at(before.retained, w, k);
        let q1 = ledger::queue_at(after.retained, w, k);
        assert(delivery_laws::addressed(to, w) == (delivery_laws::addressed(init, w)
            || last.writers.contains(w))) by {
            if delivery_laws::addressed(init, w) {
                let j = choose|j: int| 0 <= j < init.len() && (#[trigger] init[j]).writers.contains(w);
                assert(to[j].writers.contains(w));
            }
            if last.writers.contains(w) {
                assert(to[to.len() - 1].writers.contains(w));
            }
            if delivery_laws::addressed(to, w) && !last.writers.contains(w) {
                let j = choose|j: int| 0 <= j < to.len() && (#[trigger] to[j]).writers.contains(w);
                assert(init[j].writers.contains(w));
            }
        }
        let report = ledger::report_of(before, e, last, (before.next_snapshot + 1) as u64);
        if last.writers.contains(w) && k == e.key {
            assert(q1 == ledger::offered(qm, ledger::committed(m, w, k), report));
            if q1 != qm {
                assert(q1 == qm.push(report));
                assert(q1.drop_last() =~= qm);
            }
        } else {
            assert(q1 == qm);
        }
    }
}

/// The same of observing distinct files.
pub(crate) proof fn lemma_observe_exact(
    m: Ledger,
    reader: Option<RecordView>,
    entries: Seq<EntryView>,
    w: RecordView,
    k: Seq<char>,
)
    requires
        telling_laws::distinct_keys(entries),
    ensures
        ({
            let q0 = ledger::queue_at(m.retained, w, k);
            let q1 = ledger::queue_at(ledger::observe(m, reader, entries).retained, w, k);
            let shown = if q0.len() > 0 {
                q0.last().hash
            } else {
                ledger::committed(m, w, k)
            };
            let for_w = delivery_laws::addressed(ledger::recipients(m, reader, k), w);
            &&& !delivery_laws::listed(entries, k) || !for_w ==> q1 == q0
            &&& forall|i: int|
                0 <= i < entries.len() && (#[trigger] entries[i]).key == k && for_w ==> if shown
                    != entries[i].hash() {
                    &&& q1.len() == q0.len() + 1
                    &&& q1.drop_last() == q0
                    &&& q1.last().file == entries[i]
                    &&& q1.last().hash == entries[i].hash()
                } else {
                    q1 == q0
                }
        }),
    decreases entries.len(),
{
    if entries.len() > 0 {
        let init = entries.drop_last();
        let e = entries.last();
        assert forall|i: int, j: int| 0 <= i < j < init.len() implies (#[trigger] init[i]).key != (
        #[trigger] init[j]).key by {
            assert(entries[i].key != entries[j].key);
        }
        lemma_observe_exact(m, reader, init, w, k);
        soundness::lemma_observe(m, reader, init);
        let before = ledger::observe(m, reader, init);
        lemma_recipients_exact(before, e, ledger::recipients(before, reader, e.key), w, k);
        assert(ledger::recipients(before, reader, k) == ledger::recipients(m, reader, k));
        assert(e == entries[entries.len() - 1]);
        assert(delivery_laws::listed(entries, k) == (delivery_laws::listed(init, k) || e.key == k))
            by {
            if delivery_laws::listed(init, k) {
                let i = choose|i: int| 0 <= i < init.len() && (#[trigger] init[i]).key == k;
                assert(entries[i].key == k);
            }
            if delivery_laws::listed(entries, k) && e.key != k {
                let i = choose|i: int| 0 <= i < entries.len() && (#[trigger] entries[i]).key == k;
                assert(init[i].key == k);
            }
        }
        if e.key == k {
            assert(!delivery_laws::listed(init, k)) by {
                if delivery_laws::listed(init, k) {
                    let i = choose|i: int| 0 <= i < init.len() && (#[trigger] init[i]).key == k;
                    assert(entries[i].key != entries[entries.len() - 1].key);
                }
            }
        }
        assert forall|i: int|
            0 <= i < entries.len() && (#[trigger] entries[i]).key == k
                && delivery_laws::addressed(ledger::recipients(m, reader, k), w) implies ({
            let q0 = ledger::queue_at(m.retained, w, k);
            let q1 = ledger::queue_at(ledger::observe(m, reader, entries).retained, w, k);
            let shown = if q0.len() > 0 {
                q0.last().hash
            } else {
                ledger::committed(m, w, k)
            };
            if shown != entries[i].hash() {
                &&& q1.len() == q0.len() + 1
                &&& q1.drop_last() == q0
                &&& q1.last().file == entries[i]
                &&& q1.last().hash == entries[i].hash()
            } else {
                q1 == q0
            }
        }) by {
            if i < init.len() {
                assert(init[i] == entries[i]);
                assert(e.key != k);
            }
        }
    }
}

/// Owners that differ in their delivery alone.
pub open spec fn same_owners(a: Owners, b: Owners) -> bool {
    &&& a.len() == b.len()
    &&& forall|i: int|
        0 <= i < a.len() ==> (#[trigger] a[i]).0 == b[i].0 && a[i].1.generation == b[i].1.generation
            && a[i].1.writers == b[i].1.writers
}

/// Taking reports off their queues leaves the owners but for their delivery.
proof fn lemma_pop_owners(m: Ledger, record: RecordView, snapshots: Seq<(Seq<char>, u64)>)
    ensures
        same_owners(ledger::pop_named(m, record, snapshots).ownership, m.ownership),
    decreases snapshots.len(),
{
    if snapshots.len() > 0 {
        lemma_pop_owners(m, record, snapshots.drop_last());
        let before = ledger::pop_named(m, record, snapshots.drop_last());
        let after = ledger::pop_named(m, record, snapshots);
        assert forall|i: int| 0 <= i < after.ownership.len() implies (#[trigger]
        after.ownership[i]).0 == m.ownership[i].0 && after.ownership[i].1.generation
            == m.ownership[i].1.generation && after.ownership[i].1.writers
            == m.ownership[i].1.writers by {
            assert(before.ownership[i].0 == m.ownership[i].0);
        }
    }
}

/// Where at most one report of each file is kept, taking those that updates were
/// shown from empties the queues of the updated files.
proof fn lemma_pop_shown(
    m: Ledger,
    retained: Queues,
    record: RecordView,
    updates: Seq<(Seq<char>, Option<u64>)>,
    k: Seq<char>,
)
    requires
        m.retained == retained,
        forall|k: Seq<char>| (#[trigger] ledger::queue_at(retained, record, k)).len() <= 1,
    ensures
        ({
            let after = ledger::pop_named(
                m,
                record,
                ledger::shown_from(retained, record, updates),
            );
            ledger::queue_at(after.retained, record, k) == if telling_laws::updated(updates, k) {
                Seq::empty()
            } else {
                ledger::queue_at(retained, record, k)
            }
        }),
    decreases updates.len(),
{
    if updates.len() > 0 {
        let init = updates.drop_last();
        let key = updates.last().0;
        lemma_pop_shown(m, retained, record, init, k);
        lemma_pop_shown(m, retained, record, init, key);
        let part = ledger::shown_from(retained, record, init);
        let whole = ledger::shown_from(retained, record, updates);
        let before = ledger::pop_named(m, record, part);
        let after = ledger::pop_named(m, record, whole);
        let q = ledger::queue_at(retained, record, key);
        assert(q.len() <= 1);
        assert(telling_laws::updated(updates, k) == (telling_laws::updated(init, k) || key == k))
            by {
            if telling_laws::updated(init, k) {
                let j = choose|j: int| 0 <= j < init.len() && (#[trigger] init[j]).0 == k;
                assert(updates[j].0 == k);
            }
            assert(updates[updates.len() - 1].0 == key);
            if telling_laws::updated(updates, k) && key != k {
                let j = choose|j: int| 0 <= j < updates.len() && (#[trigger] updates[j]).0 == k;
                assert(init[j].0 == k);
            }
        }
        if q.len() > 0 {
            assert(whole.drop_last() =~= part);
            assert(whole.last() == (key, q[0].id));
            let now = ledger::queue_at(before.retained, record, key);
            if now.len() > 0 && now[0].id == q[0].id {
                assert(after == ledger::pop_report(before, record, key));
                if key == k {
                    assert(ledger::queue_at(after.retained, record, k) == now.drop_first());
                    assert(now.drop_first() =~= Seq::empty());
                } else {
                    assert(ledger::queue_at(after.retained, record, k) == ledger::queue_at(
                        before.retained,
                        record,
                        k,
                    ));
                }
            } else {
                assert(now =~= Seq::empty());
                assert(after == before);
            }
        } else {
            assert(whole == part);
            if key == k {
                assert(q =~= Seq::empty());
            }
        }
    }
}

/// Files in the order of their keys, the files that wait among them likewise.
proof fn lemma_waiting_ordered(record: Record, list: Seq<EntryView>)
    requires
        forall|i: int, j: int|
            0 <= i < j < list.len() ==> (#[trigger] list[i]).key != (#[trigger] list[j]).key
                && text::text_leq(list[i].key, list[j].key),
    ensures
        ({
            let w = telling_laws::waiting(record, list);
            &&& forall|i: int, j: int|
                0 <= i < j < w.len() ==> (#[trigger] w[i]).key != (#[trigger] w[j]).key
                    && text::text_leq(w[i].key, w[j].key)
            &&& forall|i: int|
                0 <= i < w.len() ==> telling_laws::waits(record, #[trigger] w[i])
                    && list.contains(w[i])
            &&& forall|i: int|
                0 <= i < list.len() && telling_laws::waits(record, #[trigger] list[i])
                    ==> w.contains(list[i])
        }),
    decreases list.len(),
{
    reveal(Seq::filter);
    if list.len() > 0 {
        let init = list.drop_last();
        let e = list.last();
        assert forall|i: int, j: int| 0 <= i < j < init.len() implies (#[trigger] init[i]).key != (
        #[trigger] init[j]).key && text::text_leq(init[i].key, init[j].key) by {
            assert(list[i].key != list[j].key);
        }
        lemma_waiting_ordered(record, init);
        let part = telling_laws::waiting(record, init);
        let w = telling_laws::waiting(record, list);
        assert(e == list[list.len() - 1]);
        assert forall|i: int| 0 <= i < part.len() implies list.contains(#[trigger] part[i]) && part[i].key
            != e.key && text::text_leq(part[i].key, e.key) by {
            assert(init.contains(part[i]));
            let x = choose|x: int| 0 <= x < init.len() && init[x] == part[i];
            assert(list[x] == part[i]);
        }
        if telling_laws::waits(record, e) {
            assert(w == part.push(e));
            assert forall|i: int, j: int| 0 <= i < j < w.len() implies (#[trigger] w[i]).key != (
            #[trigger] w[j]).key && text::text_leq(w[i].key, w[j].key) by {
                assert(w[i] == part[i]);
                if j < part.len() {
                    assert(w[j] == part[j]);
                }
            }
            assert(w[part.len() as int] == e);
        }
        assert forall|i: int| 0 <= i < w.len() implies telling_laws::waits(record, #[trigger] w[i])
            && list.contains(w[i]) by {
            if i < part.len() {
                assert(w[i] == part[i]);
            } else {
                assert(list[list.len() - 1] == w[i]);
            }
        }
        assert forall|i: int|
            0 <= i < list.len() && telling_laws::waits(record, #[trigger] list[i]) implies w.contains(
            list[i],
        ) by {
            if i < init.len() {
                assert(init[i] == list[i]);
                assert(part.contains(init[i]));
                let x = choose|x: int| 0 <= x < part.len() && part[x] == list[i];
                assert(w[x] == list[i]);
            } else {
                assert(w[part.len() as int] == e);
            }
        }
    }
}

/// The files of a selection that wait.
spec fn held_back(record: Record, files: Map<Seq<char>, EntryView>) -> Map<Seq<char>, EntryView> {
    Map::new(
        |k: Seq<char>| files.dom().contains(k) && telling_laws::waits(record, files[k]),
        |k: Seq<char>| files[k],
    )
}

/// Listing a selection and keeping the files that wait lists those that wait.
proof fn lemma_waiting_lists(record: Record, files: Map<Seq<char>, EntryView>, list: Seq<EntryView>)
    requires
        ledger::in_key_order(files, list),
    ensures
        ledger::in_key_order(held_back(record, files), telling_laws::waiting(record, list)),
{
    let w = telling_laws::waiting(record, list);
    let some = held_back(record, files);
    lemma_waiting_ordered(record, list);
    assert forall|i: int| 0 <= i < w.len() implies some.dom().contains((#[trigger] w[i]).key)
        && some[w[i].key] == w[i] by {
        assert(list.contains(w[i]));
        let x = choose|x: int| 0 <= x < list.len() && list[x] == w[i];
        assert(files.dom().contains(list[x].key));
    }
    assert forall|k: Seq<char>| #[trigger] some.dom().contains(k) implies exists|i: int|
        0 <= i < w.len() && (#[trigger] w[i]).key == k by {
        assert(files.dom().contains(k));
        let x = choose|x: int| 0 <= x < list.len() && (#[trigger] list[x]).key == k;
        assert(telling_laws::waits(record, list[x]));
        assert(w.contains(list[x]));
        let i = choose|i: int| 0 <= i < w.len() && w[i] == list[x];
        assert(w[i].key == k);
    }
}

/// Whether flushing `record` over `entries` again and again reads one version of
/// each file: no file stands twice in `entries`, the files to read are finitely
/// many, and at most one report of each is kept once the record reads.
pub open spec fn steady(m: Ledger, record: RecordView, entries: Seq<EntryView>) -> bool {
    let ready = ledger::prepared(m, record, entries);
    &&& telling_laws::distinct_keys(entries)
    &&& ledger::routed(ready, record, entries).dom().finite()
    &&& forall|k: Seq<char>| (#[trigger] ledger::queue_at(ready.retained, record, k)).len() <= 1
}

/// Whether `list` holds each file of `files` once, and no other.
pub open spec fn lists(files: Map<Seq<char>, EntryView>, list: Seq<EntryView>) -> bool {
    &&& telling_laws::distinct_keys(list)
    &&& forall|i: int|
        0 <= i < list.len() ==> files.dom().contains((#[trigger] list[i]).key)
            && files[list[i].key] == list[i]
    &&& forall|k: Seq<char>| #[trigger]
        files.dom().contains(k) ==> exists|i: int|
            0 <= i < list.len() && (#[trigger] list[i]).key == k
}

/// Where a report is kept for a record, the record is registered; and what it
/// reads the current state of is reported to it.
proof fn lemma_kept_addressed(m: Ledger, record: RecordView, entries: Seq<EntryView>, k: Seq<char>)
    requires
        ledger::sound(m),
    ensures
        ({
            let ready = ledger::prepared(m, record, entries);
            let q = ledger::queue_at(ready.retained, record, k);
            &&& q.len() > 0 ==> m.roots.dom().contains(record)
            &&& q.len() > 0 && ledger::admitted(m, record, k) ==> delivery_laws::addressed(
                ledger::recipients(m, Some(record), k),
                record,
            )
        }),
{
    let ready = ledger::prepared(m, record, entries);
    soundness::lemma_prepared(m, record, entries);
    if ledger::queue_at(ready.retained, record, k).len() > 0 {
        assert(ready.retained.dom().contains(record));
        if ledger::admitted(m, record, k) {
            law_a_registered_record_is_reported_what_it_reads(m, record, k);
        }
    }
}

/// What is current for a file that stands once in `entries`.
pub(crate) proof fn lemma_current_exact(m: Ledger, record: RecordView, entries: Seq<EntryView>, k: Seq<char>)
    requires
        telling_laws::distinct_keys(entries),
    ensures
        ({
            let current = ledger::current_for(m, record, entries);
            &&& current.dom().contains(k) == (ledger::admitted(m, record, k)
                && delivery_laws::listed(entries, k))
            &&& forall|i: int|
                0 <= i < entries.len() && (#[trigger] entries[i]).key == k && ledger::admitted(
                    m,
                    record,
                    k,
                ) ==> current[k] == entries[i]
        }),
    decreases entries.len(),
{
    if entries.len() > 0 {
        let init = entries.drop_last();
        assert forall|i: int, j: int| 0 <= i < j < init.len() implies (#[trigger] init[i]).key != (
        #[trigger] init[j]).key by {
            assert(entries[i].key != entries[j].key);
        }
        lemma_current_exact(m, record, init, k);
        let e = entries.last();
        assert(e == entries[entries.len() - 1]);
        assert(delivery_laws::listed(entries, k) == (delivery_laws::listed(init, k) || e.key == k))
            by {
            if delivery_laws::listed(init, k) {
                let i = choose|i: int| 0 <= i < init.len() && (#[trigger] init[i]).key == k;
                assert(entries[i].key == k);
            }
            if delivery_laws::listed(entries, k) && e.key != k {
                let i = choose|i: int| 0 <= i < entries.len() && (#[trigger] entries[i]).key == k;
                assert(init[i].key == k);
            }
        }
        assert forall|i: int|
            0 <= i < entries.len() && (#[trigger] entries[i]).key == k && ledger::admitted(
                m,
                record,
                k,
            ) implies ledger::current_for(m, record, entries)[k] == entries[i] by {
            if i < init.len() {
                assert(init[i] == entries[i]);
                assert(entries[i].key != entries[entries.len() - 1].key);
            }
        }
    }
}

/// Who reads what rests on the roots and on who owns what, not on what has been
/// delivered.
proof fn lemma_same_readers(a: Ledger, b: Ledger, record: RecordView, k: Seq<char>)
    requires
        a.roots == b.roots,
        same_owners(a.ownership, b.ownership),
        table::distinct_rows(a.ownership),
    ensures
        ledger::recipients(a, Some(record), k) == ledger::recipients(b, Some(record), k),
        ledger::admitted(a, record, k) == ledger::admitted(b, record, k),
{
    table::lemma_same_keys(a.ownership, b.ownership);
    delivery_laws::lemma_owners_same(a.ownership, b.ownership, k);
    assert(ledger::falls_back(a, record, k) == ledger::falls_back(b, record, k)) by {
        match ledger::lookup(a.roots, record) {
            Some(Some(root)) => {
                assert(table::has_row(a.ownership, (root, k)) == table::has_row(
                    b.ownership,
                    (root, k),
                ));
            },
            _ => {},
        }
    }
}

/// Composing a report changes nothing in who reads what.
pub(crate) proof fn lemma_prepared_readers(m: Ledger, record: RecordView, entries: Seq<EntryView>, k: Seq<char>)
    requires
        ledger::sound(m),
    ensures
        ({
            let ready = ledger::prepared(m, record, entries);
            &&& same_owners(ready.ownership, m.ownership)
            &&& ledger::recipients(ready, Some(record), k) == ledger::recipients(
                m,
                Some(record),
                k,
            )
            &&& ledger::admitted(ready, record, k) == ledger::admitted(m, record, k)
        }),
{
    soundness::lemma_prepared(m, record, entries);
    soundness::lemma_observe(ledger::seed(m, record), Some(record), entries);
    let ready = ledger::prepared(m, record, entries);
    assert(same_owners(ready.ownership, m.ownership));
    lemma_same_readers(ready, m, record, k);
}

/// What is kept of one file once a steady record reads: where the file's state is
/// reported to the record, the kept report shows that state, and without one the
/// record was told it.
proof fn lemma_version(m: Ledger, record: RecordView, entries: Seq<EntryView>, k: Seq<char>)
    requires
        ledger::sound(m),
        telling_laws::distinct_keys(entries),
        ledger::queue_at(ledger::prepared(m, record, entries).retained, record, k).len() <= 1,
    ensures
        ({
            let ready = ledger::prepared(m, record, entries);
            let q = ledger::queue_at(ready.retained, record, k);
            let told = ledger::lookup(ready.sessions[record], k);
            &&& q.len() > 0 ==> q[0].hash != told && q[0].file.key == k && q[0].hash
                == q[0].file.hash()
            &&& forall|i: int|
                0 <= i < entries.len() && (#[trigger] entries[i]).key == k
                    && delivery_laws::addressed(ledger::recipients(m, Some(record), k), record)
                    ==> entries[i].hash() == if q.len() > 0 {
                    q[0].hash
                } else {
                    told
                }
        }),
{
    let start = ledger::seed(m, record);
    let seen = ledger::observe(start, Some(record), entries);
    let ready = ledger::prepared(m, record, entries);
    soundness::lemma_prepared(m, record, entries);
    soundness::lemma_observe(start, Some(record), entries);
    lemma_observe_exact(start, Some(record), entries, record, k);
    delivery_laws::lemma_discard_fronts(seen, record, k);
    let q = ledger::queue_at(ready.retained, record, k);
    let qs = ledger::queue_at(seen.retained, record, k);
    let told = ledger::lookup(ready.sessions[record], k);
    soundness::lemma_consumed_bound(qs, told);
    assert(ledger::recipients(start, Some(record), k) == ledger::recipients(m, Some(record), k));
    assert(ledger::committed(start, record, k) == told);
    if q.len() > 0 {
        assert(q[0] == qs.last());
        assert(ledger::queue_at(ready.retained, record, k)[0].file.key == k);
    }
    assert forall|i: int|
        0 <= i < entries.len() && (#[trigger] entries[i]).key == k && delivery_laws::addressed(
            ledger::recipients(m, Some(record), k),
            record,
        ) implies entries[i].hash() == if q.len() > 0 {
        q[0].hash
    } else {
        told
    } by {
        let e = entries[i];
        if qs.len() > 0 {
            assert(qs.last().hash == e.hash());
            if q.len() == 0 {
                assert(qs[qs.len() - 1].hash == told);
            }
        } else {
            assert(told == e.hash());
        }
    }
}

/// How a state follows from a reading of `entries`: the record was told what
/// `updates` say of the files it read, the reports they were shown from are gone,
/// and all else that the record reads from is as it was.
pub open spec fn follows(
    m: Ledger,
    record: RecordView,
    entries: Seq<EntryView>,
    after: Ledger,
    updates: Seq<(Seq<char>, Option<u64>)>,
) -> bool {
    let ready = ledger::prepared(m, record, entries);
    let files = ledger::routed(ready, record, entries);
    &&& ledger::sound(after)
    &&& after.roots == m.roots
    &&& same_owners(after.ownership, m.ownership)
    &&& after.sessions.dom().contains(record)
    &&& forall|k: Seq<char>| #[trigger]
        ledger::queue_at(after.retained, record, k) == if telling_laws::updated(updates, k) {
            Seq::empty()
        } else {
            ledger::queue_at(ready.retained, record, k)
        }
    &&& forall|k: Seq<char>| #[trigger]
        telling_laws::updated(updates, k) ==> files.dom().contains(k) && ledger::lookup(
            after.sessions[record],
            k,
        ) == files[k].hash()
    &&& forall|k: Seq<char>|
        !#[trigger] telling_laws::updated(updates, k) ==> ledger::lookup(after.sessions[record], k)
            == ledger::lookup(ready.sessions[record], k)
}

/// Reading again from a state that follows keeps nothing new.
proof fn lemma_follows_queues(
    m: Ledger,
    record: RecordView,
    entries: Seq<EntryView>,
    after: Ledger,
    updates: Seq<(Seq<char>, Option<u64>)>,
)
    requires
        ledger::sound(m),
        steady(m, record, entries),
        follows(m, record, entries, after, updates),
    ensures
        ({
            let ready2 = ledger::prepared(after, record, entries);
            &&& ready2.ownership == after.ownership
            &&& ready2.sessions == after.sessions
            &&& forall|k: Seq<char>| #[trigger]
                ledger::queue_at(ready2.retained, record, k) == ledger::queue_at(
                    after.retained,
                    record,
                    k,
                )
        }),
{
    let ready = ledger::prepared(m, record, entries);
    let seen2 = ledger::observe(after, Some(record), entries);
    assert(ledger::seed(after, record) == after);
    soundness::lemma_prepared(m, record, entries);
    soundness::lemma_observe(after, Some(record), entries);
    assert forall|k: Seq<char>| #[trigger]
        ledger::queue_at(seen2.retained, record, k) == ledger::queue_at(after.retained, record, k)
            && ledger::spent(seen2, record, k) == 0 by {
        let q = ledger::queue_at(ready.retained, record, k);
        let p = ledger::queue_at(after.retained, record, k);
        let told = ledger::lookup(after.sessions[record], k);
        assert(q.len() <= 1);
        lemma_version(m, record, entries, k);
        lemma_kept_addressed(m, record, entries, k);
        lemma_observe_exact(after, Some(record), entries, record, k);
        lemma_same_readers(after, m, record, k);
        lemma_prepared_readers(m, record, entries, k);
        lemma_current_exact(ready, record, entries, k);
        assert(ledger::committed(after, record, k) == told);
        let change = telling_laws::updated(updates, k);
        assert(p == if change {
            Seq::empty()
        } else {
            q
        });
        assert(ledger::queue_at(seen2.retained, record, k) == p) by {
            if delivery_laws::listed(entries, k) && delivery_laws::addressed(
                ledger::recipients(m, Some(record), k),
                record,
            ) {
                let i = choose|i: int| 0 <= i < entries.len() && (#[trigger] entries[i]).key == k;
                let e = entries[i];
                if p.len() > 0 {
                    assert(p.last().hash == e.hash());
                } else {
                    assert(told == e.hash());
                }
            }
        }
        assert(seen2.sessions == after.sessions);
    }
    assert(!ledger::any_spent(seen2, record)) by {
        if ledger::any_spent(seen2, record) {
            let k = choose|k: Seq<char>|
                seen2.retained[record].dom().contains(k) && #[trigger] ledger::spent(
                    seen2,
                    record,
                    k,
                ) > 0;
            assert(ledger::queue_at(seen2.retained, record, k) == ledger::queue_at(
                after.retained,
                record,
                k,
            ));
        }
    }
}

/// What a steady record reads: each file that is routed to it once, and for a
/// registered record in the order of the files' keys.
pub(crate) proof fn lemma_reads(m: Ledger, record: RecordView, entries: Seq<EntryView>)
    requires
        ledger::sound(m),
        steady(m, record, entries),
    ensures
        ({
            let ready = ledger::prepared(m, record, entries);
            let files = ledger::routed(ready, record, entries);
            let list = ledger::reading(ready, record, entries);
            &&& lists(files, list)
            &&& m.roots.dom().contains(record) ==> ledger::in_key_order(files, list)
        }),
{
    let ready = ledger::prepared(m, record, entries);
    let files = ledger::routed(ready, record, entries);
    let list = ledger::reading(ready, record, entries);
    soundness::lemma_prepared(m, record, entries);
    delivery_laws::lemma_current_keys(ready, record, entries);
    if m.roots.dom().contains(record) {
        assert forall|k: Seq<char>| #[trigger] files.dom().contains(k) implies files[k].key == k by {
            let q = ledger::queue_at(ready.retained, record, k);
            if q.len() > 0 {
                assert(ledger::queue_at(ready.retained, record, k)[0].file.key == k);
            }
        }
        let witness = delivery_laws::lemma_listing_exists(files);
        assert(ledger::in_key_order(files, witness));
    } else {
        assert forall|i: int| 0 <= i < list.len() implies files.dom().contains(
            (#[trigger] list[i]).key,
        ) && files[list[i].key] == list[i] by {
            let k = entries[i].key;
            lemma_kept_addressed(m, record, entries, k);
            lemma_current_exact(ready, record, entries, k);
            assert(delivery_laws::listed(entries, k));
        }
        assert forall|k: Seq<char>| #[trigger] files.dom().contains(k) implies exists|i: int|
            0 <= i < list.len() && (#[trigger] list[i]).key == k by {
            lemma_kept_addressed(m, record, entries, k);
            lemma_current_exact(ready, record, entries, k);
        }
    }
}

/// What a state that follows is read as: the files that still wait, and no
/// others.
pub(crate) proof fn lemma_follows(
    m: Ledger,
    record: RecordView,
    entries: Seq<EntryView>,
    after: Ledger,
    updates: Seq<(Seq<char>, Option<u64>)>,
)
    requires
        ledger::sound(m),
        steady(m, record, entries),
        follows(m, record, entries, after, updates),
    ensures
        ({
            let ready = ledger::prepared(m, record, entries);
            let list = ledger::reading(ready, record, entries);
            let ready2 = ledger::prepared(after, record, entries);
            let told = after.sessions[record];
            &&& steady(after, record, entries)
            &&& ready2.sessions[record] == told
            &&& telling_laws::waiting(told, ledger::reading(ready2, record, entries))
                == telling_laws::waiting(told, list)
            &&& ledger::composed(after, record, entries) == ledger::diff_all(
                after.config,
                told,
                list,
            )
        }),
{
    let ready = ledger::prepared(m, record, entries);
    let list = ledger::reading(ready, record, entries);
    let ready2 = ledger::prepared(after, record, entries);
    let list2 = ledger::reading(ready2, record, entries);
    let files = ledger::routed(ready, record, entries);
    let files2 = ledger::routed(ready2, record, entries);
    let told = after.sessions[record];
    lemma_follows_queues(m, record, entries, after, updates);
    soundness::lemma_prepared(m, record, entries);
    soundness::lemma_prepared(after, record, entries);
    assert forall|k: Seq<char>|
        #![trigger files.dom().contains(k)]
        #![trigger files2.dom().contains(k)]
        (files2.dom().contains(k) ==> files.dom().contains(k) && (files2[k] == files[k]
            || !telling_laws::waits(told, files2[k]))) && (files.dom().contains(k)
            && telling_laws::waits(told, files[k]) ==> files2.dom().contains(k) && files2[k]
            == files[k]) by {
        let q = ledger::queue_at(ready.retained, record, k);
        let p = ledger::queue_at(after.retained, record, k);
        assert(ledger::queue_at(ready2.retained, record, k) == p);
        assert(q.len() <= 1);
        lemma_version(m, record, entries, k);
        lemma_kept_addressed(m, record, entries, k);
        lemma_prepared_readers(m, record, entries, k);
        lemma_prepared_readers(after, record, entries, k);
        lemma_same_readers(after, m, record, k);
        lemma_current_exact(ready, record, entries, k);
        lemma_current_exact(ready2, record, entries, k);
        let change = telling_laws::updated(updates, k);
        if delivery_laws::listed(entries, k) {
            let i = choose|i: int| 0 <= i < entries.len() && (#[trigger] entries[i]).key == k;
            assert(ledger::admitted(m, record, k) ==> ledger::current_for(
                ready,
                record,
                entries,
            )[k] == entries[i] && ledger::current_for(ready2, record, entries)[k] == entries[i]);
        }
        if change {
            assert(ledger::lookup(told, k) == files[k].hash());
        }
    }
    assert(files2.dom().subset_of(files.dom()));
    vstd::set_lib::lemma_len_subset(files2.dom(), files.dom());
    assert(steady(after, record, entries)) by {
        assert forall|k: Seq<char>| (#[trigger] ledger::queue_at(
            ready2.retained,
            record,
            k,
        )).len() <= 1 by {
            assert(ledger::queue_at(after.retained, record, k).len() <= 1);
            assert(ledger::queue_at(ready.retained, record, k).len() <= 1);
        }
    }
    lemma_reads(m, record, entries);
    lemma_reads(after, record, entries);
    if m.roots.dom().contains(record) {
        lemma_waiting_lists(told, files, list);
        lemma_waiting_lists(told, files2, list2);
        assert(held_back(told, files) =~= held_back(told, files2)) by {
            assert forall|k: Seq<char>|
                held_back(told, files).dom().contains(k) == #[trigger] held_back(
                    told,
                    files2,
                ).dom().contains(k) by {
                if held_back(told, files).dom().contains(k) {
                    assert(files.dom().contains(k));
                }
                if held_back(told, files2).dom().contains(k) {
                    assert(files2.dom().contains(k));
                }
            }
            assert forall|k: Seq<char>| #[trigger] held_back(told, files2).dom().contains(k) implies held_back(
                told,
                files,
            )[k] == held_back(told, files2)[k] by {
                assert(files2.dom().contains(k));
            }
        }
        crate::attribution::lemma_key_order_unique(
            held_back(told, files),
            telling_laws::waiting(told, list),
            telling_laws::waiting(told, list2),
        );
    }
    telling_laws::lemma_diff_waiting(after.config, told, list);
    telling_laws::lemma_diff_waiting(after.config, told, list2);
}

/// A staged report changes nothing in what is read.
pub(crate) proof fn lemma_stage_follows(m: Ledger, record: RecordView, entries: Seq<EntryView>)
    requires
        ledger::sound(m),
    ensures
        follows(m, record, entries, ledger::stage(m, record, entries), Seq::empty()),
        ledger::stage(m, record, entries).config == m.config,
        ledger::stage(m, record, entries).baseline == m.baseline,
        ledger::stage(m, record, entries).sessions[record] == ledger::prepared(
            m,
            record,
            entries,
        ).sessions[record],
{
    soundness::lemma_prepared(m, record, entries);
    soundness::law_stage_keeps_sound(m, record, entries);
    lemma_prepared_readers(m, record, entries, Seq::empty());
}

/// A flush leaves the record told of what it reported.
pub(crate) proof fn lemma_flush_follows(m: Ledger, record: RecordView, entries: Seq<EntryView>)
    requires
        ledger::sound(m),
        steady(m, record, entries),
    ensures
        ({
            let ready = ledger::prepared(m, record, entries);
            let list = ledger::reading(ready, record, entries);
            let after = ledger::flush(m, record, entries);
            &&& follows(m, record, entries, after, ledger::composed(m, record, entries).updates)
            &&& after.config == m.config
            &&& after.baseline == m.baseline
            &&& after.sessions[record] == telling_laws::passed(
                m.config,
                ready.sessions[record],
                list,
            )
        }),
{
    let ready = ledger::prepared(m, record, entries);
    let files = ledger::routed(ready, record, entries);
    let list = ledger::reading(ready, record, entries);
    let history = ready.sessions[record];
    let d = ledger::composed(m, record, entries);
    let staged = ledger::stage(m, record, entries);
    let after = ledger::flush(m, record, entries);
    let told = telling_laws::passed(m.config, history, list);
    soundness::lemma_prepared(m, record, entries);
    soundness::law_stage_keeps_sound(m, record, entries);
    lemma_prepared_readers(m, record, entries, Seq::empty());
    lemma_reads(m, record, entries);
    telling_laws::lemma_pass(m.config, history, list);
    if d.updates.len() == 0 {
        assert(after == staged);
        assert(told == history);
    } else {
        let token = (m.next_token + 1) as u64;
        assert(ledger::acknowledges(staged, record, token));
        soundness::law_commit_keeps_sound(staged, record, token);
        let mid = Ledger {
            pending: staged.pending.remove(record),
            sessions: staged.sessions.insert(record, told),
            ..staged
        };
        let snapshots = staged.pending[record].snapshots;
        assert(snapshots == ledger::shown_from(ready.retained, record, d.updates));
        assert(after == ledger::commit_named(mid, record, snapshots));
        soundness::lemma_commit_named(mid, record, snapshots);
        let popped = ledger::pop_named(mid, record, snapshots);
        lemma_pop_owners(mid, record, snapshots);
        soundness::lemma_tidy(popped.retained, record);
        assert forall|k: Seq<char>| #[trigger]
            ledger::queue_at(after.retained, record, k) == if telling_laws::updated(d.updates, k) {
                Seq::empty()
            } else {
                ledger::queue_at(ready.retained, record, k)
            } by {
            lemma_pop_shown(mid, ready.retained, record, d.updates, k);
            if !mid.retained.dom().contains(record) {
                assert(ledger::queue_at(ready.retained, record, k) =~= Seq::empty());
            }
        }
        assert forall|i: int| 0 <= i < after.ownership.len() implies (#[trigger]
        after.ownership[i]).0 == m.ownership[i].0 && after.ownership[i].1.generation
            == m.ownership[i].1.generation && after.ownership[i].1.writers
            == m.ownership[i].1.writers by {
            assert(ready.ownership[i].0 == m.ownership[i].0);
            assert(popped.ownership[i].0 == mid.ownership[i].0);
        }
    }
    assert forall|k: Seq<char>| #[trigger] telling_laws::updated(d.updates, k) implies files.dom().contains(
        k,
    ) && ledger::lookup(told, k) == files[k].hash() by {
        assert(delivery_laws::listed(list, k));
        let i = choose|i: int| 0 <= i < list.len() && (#[trigger] list[i]).key == k;
        assert(files[list[i].key] == list[i]);
        assert(!telling_laws::waits(told, list[i]));
    }
    assert forall|k: Seq<char>|
        !#[trigger] telling_laws::updated(d.updates, k) implies ledger::lookup(told, k)
        == ledger::lookup(history, k) by {
        if delivery_laws::listed(list, k) {
            let i = choose|i: int| 0 <= i < list.len() && (#[trigger] list[i]).key == k;
            assert(telling_laws::updated(d.updates, list[i].key) == (telling_laws::waits(
                history,
                list[i],
            ) && !telling_laws::waits(told, list[i])));
            if !telling_laws::waits(told, list[i]) {
                assert(!telling_laws::waits(history, list[i]));
            }
        }
    }
}

/// A registered record reads the current state of a file only where that state
/// is reported to it.
pub proof fn law_a_registered_record_is_reported_what_it_reads(
    m: Ledger,
    record: RecordView,
    k: Seq<char>,
)
    requires
        m.roots.dom().contains(record),
        ledger::admitted(m, record, k),
    ensures
        delivery_laws::addressed(ledger::recipients(m, Some(record), k), record),
{
    let to = ledger::recipients(m, Some(record), k);
    assert(to.last().writers.contains(record));
    assert(to[to.len() - 1].writers.contains(record));
}

/// A record is not told again what it was told, whatever the budget: right after
/// a flush that deferred nothing, a flush over the same files says nothing.
pub proof fn law_a_flush_is_not_repeated(m: Ledger, record: RecordView, entries: Seq<EntryView>)
    requires
        ledger::sound(m),
        steady(m, record, entries),
        ledger::composed(m, record, entries).report.omitted == 0,
    ensures
        ledger::composed(ledger::flush(m, record, entries), record, entries) == ledger::diff_start(
            m.config,
        ),
{
    let ready = ledger::prepared(m, record, entries);
    let list = ledger::reading(ready, record, entries);
    let after = ledger::flush(m, record, entries);
    soundness::lemma_prepared(m, record, entries);
    lemma_reads(m, record, entries);
    lemma_flush_follows(m, record, entries);
    lemma_follows(m, record, entries, after, ledger::composed(m, record, entries).updates);
    telling_laws::law_reported_once(m.config, ready.sessions[record], list);
}

/// The same file by file, under any budget: a file that one flush names is not
/// named by the next one over the same files.
pub proof fn law_a_flushed_file_is_not_named_again(
    m: Ledger,
    record: RecordView,
    entries: Seq<EntryView>,
    key: Seq<char>,
)
    requires
        ledger::sound(m),
        steady(m, record, entries),
        telling_laws::mentions(ledger::composed(m, record, entries).report, key) > 0,
    ensures
        telling_laws::mentions(
            ledger::composed(ledger::flush(m, record, entries), record, entries).report,
            key,
        ) == 0,
{
    let ready = ledger::prepared(m, record, entries);
    let list = ledger::reading(ready, record, entries);
    let after = ledger::flush(m, record, entries);
    soundness::lemma_prepared(m, record, entries);
    lemma_reads(m, record, entries);
    lemma_flush_follows(m, record, entries);
    lemma_follows(m, record, entries, after, ledger::composed(m, record, entries).updates);
    telling_laws::law_a_named_file_is_not_named_again(
        m.config,
        ready.sessions[record],
        list,
        key,
    );
}

/// The state after `n` flushes of `record` over `entries`.
pub open spec fn flushes(m: Ledger, record: RecordView, entries: Seq<EntryView>, n: nat) -> Ledger
    decreases n,
{
    if n == 0 {
        m
    } else {
        ledger::flush(flushes(m, record, entries, (n - 1) as nat), record, entries)
    }
}

/// How many times the first `n` flushes name file `key`.
pub open spec fn named(
    m: Ledger,
    record: RecordView,
    entries: Seq<EntryView>,
    n: nat,
    key: Seq<char>,
) -> nat
    decreases n,
{
    if n == 0 {
        0
    } else {
        let before = (n - 1) as nat;
        named(m, record, entries, before, key) + telling_laws::mentions(
            ledger::composed(flushes(m, record, entries, before), record, entries).report,
            key,
        )
    }
}

/// The files that wait are among those that waited.
proof fn lemma_narrow(a: Record, b: Record, list: Seq<EntryView>)
    requires
        forall|i: int|
            0 <= i < list.len() && telling_laws::waits(b, #[trigger] list[i])
                ==> telling_laws::waits(a, list[i]),
    ensures
        telling_laws::waiting(b, list) == telling_laws::waiting(b, telling_laws::waiting(a, list)),
    decreases list.len(),
{
    reveal(Seq::filter);
    if list.len() > 0 {
        let init = list.drop_last();
        assert forall|i: int|
            0 <= i < init.len() && telling_laws::waits(b, #[trigger] init[i]) implies telling_laws::waits(
            a,
            init[i],
        ) by {
            assert(init[i] == list[i]);
        }
        lemma_narrow(a, b, init);
        let e = list.last();
        assert(e == list[list.len() - 1]);
        let w = telling_laws::waiting(a, list);
        if telling_laws::waits(a, e) {
            assert(w.drop_last() =~= telling_laws::waiting(a, init));
            assert(w.last() == e);
        }
    }
}

/// Flushing again and again is passing again and again over the files that were
/// read first.
proof fn lemma_flushes(m: Ledger, record: RecordView, entries: Seq<EntryView>, n: nat)
    requires
        ledger::sound(m),
        steady(m, record, entries),
    ensures
        ({
            let ready = ledger::prepared(m, record, entries);
            let list = ledger::reading(ready, record, entries);
            let told = telling_laws::told_after(m.config, ready.sessions[record], list, n);
            let now = flushes(m, record, entries, n);
            let then = ledger::prepared(now, record, entries);
            &&& ledger::sound(now)
            &&& steady(now, record, entries)
            &&& now.config == m.config
            &&& then.sessions[record] == told
            &&& telling_laws::waiting(told, ledger::reading(then, record, entries))
                == telling_laws::waiting(told, list)
            &&& ledger::composed(now, record, entries) == ledger::diff_all(m.config, told, list)
            &&& forall|k: Seq<char>| #[trigger]
                named(m, record, entries, n, k) == telling_laws::said(
                    m.config,
                    ready.sessions[record],
                    list,
                    n,
                    k,
                )
        }),
    decreases n,
{
    let config = m.config;
    let ready = ledger::prepared(m, record, entries);
    let list = ledger::reading(ready, record, entries);
    soundness::lemma_prepared(m, record, entries);
    if n > 0 {
        let fewer = (n - 1) as nat;
        lemma_flushes(m, record, entries, fewer);
        let before = flushes(m, record, entries, fewer);
        let now = flushes(m, record, entries, n);
        let read = ledger::prepared(before, record, entries);
        let seen = ledger::reading(read, record, entries);
        let a = telling_laws::told_after(config, ready.sessions[record], list, fewer);
        let b = telling_laws::told_after(config, ready.sessions[record], list, n);
        soundness::lemma_prepared(before, record, entries);
        soundness::lemma_prepared(now, record, entries);
        lemma_reads(m, record, entries);
        lemma_reads(before, record, entries);
        lemma_flush_follows(before, record, entries);
        lemma_follows(
            before,
            record,
            entries,
            now,
            ledger::composed(before, record, entries).updates,
        );
        telling_laws::lemma_diff_waiting(config, a, list);
        telling_laws::lemma_diff_waiting(config, a, seen);
        assert(b == telling_laws::passed(config, a, seen));
        telling_laws::lemma_pass(config, a, list);
        telling_laws::lemma_pass(config, a, seen);
        lemma_narrow(a, b, list);
        lemma_narrow(a, b, seen);
        telling_laws::lemma_diff_waiting(config, b, list);
        telling_laws::lemma_diff_waiting(config, b, seen);
        assert forall|k: Seq<char>| #[trigger]
            named(m, record, entries, n, k) == telling_laws::said(
                config,
                ready.sessions[record],
                list,
                n,
                k,
            ) by {
            assert(named(m, record, entries, fewer, k) == telling_laws::said(
                config,
                ready.sessions[record],
                list,
                fewer,
                k,
            ));
        }
    }
}

/// Nothing that waits is lost and nothing is repeated, whatever the budget: over
/// `n` flushes a file that the record reads is named once if it waited, waits no
/// longer and is not muted, and otherwise not at all; and with as many flushes
/// behind it as there are files to read, a flush says nothing.
pub proof fn law_flushes_tell_every_file_exactly_once(
    m: Ledger,
    record: RecordView,
    entries: Seq<EntryView>,
    n: nat,
)
    requires
        ledger::sound(m),
        steady(m, record, entries),
    ensures
        ({
            let ready = ledger::prepared(m, record, entries);
            let list = ledger::reading(ready, record, entries);
            let history = ready.sessions[record];
            let now = flushes(m, record, entries, n);
            let told = ledger::prepared(now, record, entries).sessions[record];
            &&& forall|i: int|
                0 <= i < list.len() ==> named(m, record, entries, n, (#[trigger] list[i]).key)
                    == if telling_laws::waits(history, list[i]) && !telling_laws::waits(
                    told,
                    list[i],
                ) && !telling_laws::silent(list[i]) {
                    1nat
                } else {
                    0nat
                }
            &&& forall|k: Seq<char>|
                !#[trigger] delivery_laws::listed(list, k) ==> named(m, record, entries, n, k) == 0
            &&& n >= list.len() ==> ledger::composed(now, record, entries) == ledger::diff_start(
                m.config,
            ) && forall|i: int| 0 <= i < list.len() ==> !telling_laws::waits(told, #[trigger] list[i])
        }),
{
    let ready = ledger::prepared(m, record, entries);
    let list = ledger::reading(ready, record, entries);
    let history = ready.sessions[record];
    lemma_reads(m, record, entries);
    lemma_flushes(m, record, entries, n);
    telling_laws::law_every_file_is_told_exactly_once(m.config, history, list, n);
    assert forall|k: Seq<char>| !#[trigger] delivery_laws::listed(list, k) implies named(
        m,
        record,
        entries,
        n,
        k,
    ) == 0 by {
        assert(named(m, record, entries, n, k) == telling_laws::said(
            m.config,
            history,
            list,
            n,
            k,
        ));
    }
    assert forall|i: int| 0 <= i < list.len() implies named(
        m,
        record,
        entries,
        n,
        (#[trigger] list[i]).key,
    ) == telling_laws::said(m.config, history, list, n, list[i].key) by {
    }
}

} // verus!
