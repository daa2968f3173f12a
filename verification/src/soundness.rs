//! Every operation keeps the ledger sound.

use crate::identity::{CallerView, RecordView};
use crate::ledger;
use crate::ledger::{EntryView, Ledger, Owners, OwnerView, Queues, Recipient, RetainedView};
use crate::table;
use vstd::prelude::*;

verus! {

/// Every report of `queue` is of file `k`, and has its hash.
pub open spec fn all_of(queue: Seq<RetainedView>, k: Seq<char>) -> bool {
    forall|i: int|
        0 <= i < queue.len() ==> (#[trigger] queue[i]).file.key == k && queue[i].hash
            == queue[i].file.hash()
}

proof fn lemma_kept(retained: Queues)
    ensures
        ledger::kept_under_key(retained) == forall|w: RecordView, k: Seq<char>| #[trigger]
            all_of(ledger::queue_at(retained, w, k), k),
{
    let by_queue = forall|w: RecordView, k: Seq<char>| #[trigger]
        all_of(ledger::queue_at(retained, w, k), k);
    if by_queue {
        assert forall|w: RecordView, k: Seq<char>, i: int|
            0 <= i < ledger::queue_at(retained, w, k).len() implies (#[trigger] ledger::queue_at(
            retained,
            w,
            k,
        )[i]).file.key == k && ledger::queue_at(retained, w, k)[i].hash == ledger::queue_at(
            retained,
            w,
            k,
        )[i].file.hash() by {
            assert(all_of(ledger::queue_at(retained, w, k), k));
        }
    }
    if ledger::kept_under_key(retained) {
        assert forall|w: RecordView, k: Seq<char>| #[trigger]
            all_of(ledger::queue_at(retained, w, k), k) by {}
    }
}

/// Keeping reports keeps them under their files.
pub proof fn lemma_observe_recipients_kept(m: Ledger, e: EntryView, to: Seq<Recipient>)
    requires
        ledger::kept_under_key(m.retained),
    ensures
        ledger::kept_under_key(ledger::observe_recipients(m, e, to).retained),
    decreases to.len(),
{
    if to.len() > 0 {
        lemma_observe_recipients_kept(m, e, to.drop_last());
        let before = ledger::observe_recipients(m, e, to.drop_last());
        let after = ledger::observe_recipients(m, e, to).retained;
        let report = ledger::report_of(before, e, to.last(), (before.next_snapshot + 1) as u64);
        lemma_kept(before.retained);
        assert forall|w: RecordView, k: Seq<char>| #[trigger]
            all_of(ledger::queue_at(after, w, k), k) by {
            assert(all_of(ledger::queue_at(before.retained, w, k), k));
            if to.last().writers.contains(w) {
                if k == e.key {
                    assert(ledger::queue_at(after, w, k) == ledger::offered(
                        ledger::queue_at(before.retained, w, k),
                        ledger::committed(before, w, k),
                        report,
                    ));
                } else {
                    assert(ledger::queue_at(after, w, k) == ledger::queue_at(
                        before.retained,
                        w,
                        k,
                    ));
                }
            } else {
                assert(ledger::queue_at(after, w, k) == ledger::queue_at(before.retained, w, k));
            }
        }
        lemma_kept(after);
    }
}

/// Reports are kept for the recipients' writers.
proof fn lemma_observe_recipients_for(m: Ledger, e: EntryView, to: Seq<Recipient>)
    requires
        forall|w: RecordView| #[trigger] m.retained.dom().contains(w) ==> m.roots.dom().contains(w),
        forall|j: int| 0 <= j < to.len() ==> (#[trigger] to[j]).writers.subset_of(m.roots.dom()),
    ensures
        forall|w: RecordView| #[trigger]
            ledger::observe_recipients(m, e, to).retained.dom().contains(w)
                ==> m.roots.dom().contains(w),
    decreases to.len(),
{
    if to.len() > 0 {
        let init = to.drop_last();
        assert forall|j: int| 0 <= j < init.len() implies (#[trigger] init[j]).writers.subset_of(
            m.roots.dom(),
        ) by {
            assert(init[j] == to[j]);
        }
        lemma_observe_recipients_for(m, e, init);
        assert(to.last() == to[to.len() - 1]);
        assert forall|w: RecordView| #[trigger]
            ledger::observe_recipients(m, e, to).retained.dom().contains(w) implies m.roots.dom().contains(
            w,
        ) by {
            if !to.last().writers.contains(w) {
                assert(ledger::observe_recipients(m, e, init).retained.dom().contains(w));
            }
        }
    }
}

/// The writers of a file's owners are registered where all writers are.
proof fn lemma_owners_registered(rows: Owners, roots: Set<RecordView>, k: Seq<char>)
    requires
        forall|i: int| 0 <= i < rows.len() ==> (#[trigger] rows[i]).1.writers.subset_of(roots),
    ensures
        forall|j: int|
            0 <= j < ledger::owners_of(rows, k).len() ==> (#[trigger] ledger::owners_of(
                rows,
                k,
            )[j]).writers.subset_of(roots),
    decreases rows.len(),
{
    reveal(Seq::filter);
    if rows.len() > 0 {
        let init = rows.drop_last();
        assert forall|i: int| 0 <= i < init.len() implies (#[trigger] init[i]).1.writers.subset_of(
            roots,
        ) by {
            assert(init[i] == rows[i]);
        }
        lemma_owners_registered(init, roots, k);
        assert(rows =~= init.push(rows.last()));
        crate::attribution::lemma_owners_push(init, rows.last(), k);
        assert(rows.last() == rows[rows.len() - 1]);
        let to = ledger::owners_of(rows, k);
        let part = ledger::owners_of(init, k);
        assert forall|j: int| 0 <= j < to.len() implies (#[trigger] to[j]).writers.subset_of(
            roots,
        ) by {
            if j < part.len() {
                assert(part[j] == to[j]);
            }
        }
    }
}

/// Observing keeps the ledger sound, and changes the kept reports and their
/// numbering, nothing else.
pub proof fn lemma_observe(m: Ledger, reader: Option<RecordView>, entries: Seq<EntryView>)
    ensures
        ({
            let after = ledger::observe(m, reader, entries);
            &&& after == (Ledger {
                retained: after.retained,
                next_snapshot: after.next_snapshot,
                ..m
            })
            &&& ledger::kept_under_key(m.retained) ==> ledger::kept_under_key(after.retained)
            &&& ledger::all_registered(m.ownership, m.retained, m.roots) ==> ledger::all_registered(
                after.ownership,
                after.retained,
                after.roots,
            )
        }),
    decreases entries.len(),
{
    if entries.len() > 0 {
        lemma_observe(m, reader, entries.drop_last());
        let before = ledger::observe(m, reader, entries.drop_last());
        let to = ledger::recipients(before, reader, entries.last().key);
        crate::attribution::lemma_observe_keeps(before, entries.last(), to);
        if ledger::kept_under_key(m.retained) {
            lemma_observe_recipients_kept(before, entries.last(), to);
        }
        if ledger::all_registered(m.ownership, m.retained, m.roots) {
            lemma_owners_registered(m.ownership, m.roots.dom(), entries.last().key);
            let owners = ledger::owners_of(m.ownership, entries.last().key);
            assert forall|j: int| 0 <= j < to.len() implies (#[trigger] to[j]).writers.subset_of(
                before.roots.dom(),
            ) by {
                if j < owners.len() {
                    assert(to[j] == owners[j]);
                }
            }
            lemma_observe_recipients_for(before, entries.last(), to);
        }
    }
}

/// Forgetting empty queues keeps the others.
pub proof fn lemma_tidy(retained: Queues, record: RecordView)
    ensures
        forall|w: RecordView, k: Seq<char>| #[trigger]
            ledger::queue_at(ledger::tidy(retained, record), w, k) == ledger::queue_at(
                retained,
                w,
                k,
            ),
        ledger::kept_under_key(retained) ==> ledger::kept_under_key(
            ledger::tidy(retained, record),
        ),
{
    let after = ledger::tidy(retained, record);
    assert forall|w: RecordView, k: Seq<char>| #[trigger]
        ledger::queue_at(after, w, k) == ledger::queue_at(retained, w, k) by {
        if w == record && retained.dom().contains(record) {
            let files = retained[record];
            let left = Map::new(
                |k: Seq<char>| files.dom().contains(k) && files[k].len() > 0,
                |k: Seq<char>| files[k],
            );
            assert(left.dom().contains(k) == (files.dom().contains(k) && files[k].len() > 0));
            assert(ledger::queue_at(retained, w, k).len() == 0 ==> ledger::queue_at(
                retained,
                w,
                k,
            ) =~= Seq::empty());
        }
    }
}

/// With the same writers, and reports kept for no other record, whoever is
/// concerned stays registered.
proof fn lemma_same_writers(before: Ledger, after: Ledger)
    requires
        ledger::all_registered(before.ownership, before.retained, before.roots),
        after.roots == before.roots,
        after.ownership.len() == before.ownership.len(),
        forall|i: int|
            0 <= i < after.ownership.len() ==> (#[trigger] after.ownership[i]).1.writers
                == before.ownership[i].1.writers,
        forall|w: RecordView| #[trigger]
            after.retained.dom().contains(w) ==> before.retained.dom().contains(w),
    ensures
        ledger::all_registered(after.ownership, after.retained, after.roots),
{
    assert forall|i: int| 0 <= i < after.ownership.len() implies (#[trigger]
    after.ownership[i]).1.writers.subset_of(after.roots.dom()) by {
        assert(before.ownership[i].1.writers.subset_of(before.roots.dom()));
    }
}

/// Taking reports off their queues keeps the ledger sound, and changes the kept
/// reports and the owners' delivery, nothing else.
pub proof fn lemma_pop_named(m: Ledger, record: RecordView, snapshots: Seq<(Seq<char>, u64)>)
    ensures
        ({
            let after = ledger::pop_named(m, record, snapshots);
            &&& after == (Ledger { retained: after.retained, ownership: after.ownership, ..m })
            &&& table::distinct_rows(m.ownership) ==> table::distinct_rows(after.ownership)
            &&& ledger::all_written(m.ownership, m.next_generation) ==> ledger::all_written(after.ownership, after.next_generation)
            &&& ledger::kept_under_key(m.retained) ==> ledger::kept_under_key(after.retained)
            &&& ledger::all_registered(m.ownership, m.retained, m.roots) ==> ledger::all_registered(
                after.ownership,
                after.retained,
                after.roots,
            )
        }),
    decreases snapshots.len(),
{
    if snapshots.len() > 0 {
        lemma_pop_named(m, record, snapshots.drop_last());
        let before = ledger::pop_named(m, record, snapshots.drop_last());
        let after = ledger::pop_named(m, record, snapshots);
        let (key, id) = snapshots.last();
        let queue = ledger::queue_at(before.retained, record, key);
        if queue.len() > 0 && queue[0].id == id {
            if table::distinct_rows(before.ownership) {
                table::lemma_same_keys(before.ownership, after.ownership);
            }
            if ledger::all_written(before.ownership, before.next_generation) {
                assert forall|i: int| 0 <= i < after.ownership.len() implies (#[trigger]
                after.ownership[i]).1.writers != Set::<RecordView>::empty() && 0
                    < after.ownership[i].1.generation <= after.next_generation by {
                    assert(after.ownership[i].1.writers == before.ownership[i].1.writers);
                }
            }
            if ledger::all_registered(before.ownership, before.retained, before.roots) {
                lemma_same_writers(before, after);
            }
            if ledger::kept_under_key(before.retained) {
                lemma_kept(before.retained);
                assert forall|w: RecordView, k: Seq<char>| #[trigger]
                    all_of(ledger::queue_at(after.retained, w, k), k) by {
                    assert(all_of(ledger::queue_at(before.retained, w, k), k));
                    if w == record && k == key {
                        assert(ledger::queue_at(after.retained, w, k) == queue.drop_first());
                    } else {
                        assert(ledger::queue_at(after.retained, w, k) == ledger::queue_at(
                            before.retained,
                            w,
                            k,
                        ));
                    }
                }
                lemma_kept(after.retained);
            }
        }
    }
}

/// The same of telling a record of named reports.
pub proof fn lemma_commit_named(m: Ledger, record: RecordView, snapshots: Seq<(Seq<char>, u64)>)
    ensures
        ({
            let after = ledger::commit_named(m, record, snapshots);
            &&& after == (Ledger { retained: after.retained, ownership: after.ownership, ..m })
            &&& table::distinct_rows(m.ownership) ==> table::distinct_rows(after.ownership)
            &&& ledger::all_written(m.ownership, m.next_generation) ==> ledger::all_written(after.ownership, after.next_generation)
            &&& ledger::kept_under_key(m.retained) ==> ledger::kept_under_key(after.retained)
            &&& ledger::all_registered(m.ownership, m.retained, m.roots) ==> ledger::all_registered(
                after.ownership,
                after.retained,
                after.roots,
            )
        }),
{
    lemma_pop_named(m, record, snapshots);
    lemma_tidy(ledger::pop_named(m, record, snapshots).retained, record);
}

/// How many reports are consumed is at most how many there are.
pub proof fn lemma_consumed_bound(queue: Seq<RetainedView>, told: Option<u64>)
    ensures
        ledger::consumed(queue, told) <= queue.len(),
        forall|i: int| 0 <= i < ledger::consumed(queue, told) ==> (#[trigger] queue[i]).hash == told,
        ledger::consumed(queue, told) < queue.len() ==> queue[ledger::consumed(
            queue,
            told,
        ) as int].hash != told,
    decreases queue.len(),
{
    if queue.len() > 0 && queue[0].hash == told {
        lemma_consumed_bound(queue.drop_first(), told);
        let n = ledger::consumed(queue.drop_first(), told);
        assert forall|i: int| 0 <= i < n + 1 implies (#[trigger] queue[i]).hash == told by {
            if i > 0 {
                assert(queue.drop_first()[i - 1] == queue[i]);
            }
        }
        if n + 1 < queue.len() {
            assert(queue.drop_first()[n as int] == queue[(n + 1) as int]);
        }
    }
}

/// Discarding consumed reports keeps the ledger sound, and changes the kept
/// reports and the owners' delivery, nothing else.
pub proof fn lemma_discard(m: Ledger, record: RecordView)
    ensures
        ({
            let after = ledger::discard(m, record);
            &&& after == (Ledger { retained: after.retained, ownership: after.ownership, ..m })
            &&& table::distinct_rows(m.ownership) ==> table::distinct_rows(after.ownership)
            &&& ledger::all_written(m.ownership, m.next_generation) ==> ledger::all_written(after.ownership, after.next_generation)
            &&& ledger::kept_under_key(m.retained) ==> ledger::kept_under_key(after.retained)
            &&& ledger::all_registered(m.ownership, m.retained, m.roots) ==> ledger::all_registered(
                after.ownership,
                after.retained,
                after.roots,
            )
        }),
{
    let after = ledger::discard(m, record);
    if ledger::any_spent(m, record) {
        if table::distinct_rows(m.ownership) {
            table::lemma_same_keys(m.ownership, after.ownership);
        }
        if ledger::all_written(m.ownership, m.next_generation) {
            assert forall|i: int| 0 <= i < after.ownership.len() implies (#[trigger]
            after.ownership[i]).1.writers != Set::<RecordView>::empty() && 0
                < after.ownership[i].1.generation <= after.next_generation by {
                assert(after.ownership[i].1.writers == m.ownership[i].1.writers);
            }
        }
        if ledger::kept_under_key(m.retained) {
            let files = m.retained[record];
            let mid = m.retained.insert(
                record,
                Map::new(
                    |k: Seq<char>| files.dom().contains(k),
                    |k: Seq<char>| files[k].skip(ledger::spent(m, record, k) as int),
                ),
            );
            lemma_kept(m.retained);
            assert forall|w: RecordView, k: Seq<char>| #[trigger]
                all_of(ledger::queue_at(mid, w, k), k) by {
                assert(all_of(ledger::queue_at(m.retained, w, k), k));
                if w == record && files.dom().contains(k) {
                    let queue = ledger::queue_at(m.retained, w, k);
                    let n = ledger::spent(m, record, k) as int;
                    lemma_consumed_bound(queue, ledger::lookup(m.sessions[record], k));
                    assert(ledger::queue_at(mid, w, k) == queue.skip(n));
                    assert forall|i: int| 0 <= i < queue.skip(n).len() implies (#[trigger]
                    queue.skip(n)[i]).file.key == k && queue.skip(n)[i].hash == queue.skip(
                        n,
                    )[i].file.hash() by {
                        assert(queue[i + n].file.key == k);
                    }
                }
            }
            lemma_kept(mid);
            lemma_tidy(mid, record);
        }
        if ledger::all_registered(m.ownership, m.retained, m.roots) {
            lemma_same_writers(m, after);
        }
    }
}

/// Composing a report keeps the ledger sound, and gives the record a history.
pub proof fn lemma_prepared(m: Ledger, record: RecordView, entries: Seq<EntryView>)
    ensures
        ({
            let after = ledger::prepared(m, record, entries);
            &&& after == (Ledger {
                retained: after.retained,
                ownership: after.ownership,
                next_snapshot: after.next_snapshot,
                sessions: ledger::seed(m, record).sessions,
                ..m
            })
            &&& after.sessions.dom().contains(record)
            &&& ledger::sound(m) ==> ledger::sound(after)
        }),
{
    let start = ledger::seed(m, record);
    lemma_observe(start, Some(record), entries);
    lemma_discard(ledger::observe(start, Some(record), entries), record);
}

/// Staging a report keeps the ledger sound.
pub proof fn law_stage_keeps_sound(m: Ledger, record: RecordView, entries: Seq<EntryView>)
    requires
        ledger::sound(m),
    ensures
        ledger::sound(ledger::stage(m, record, entries)),
{
    lemma_prepared(m, record, entries);
}

/// Acknowledging a report keeps the ledger sound.
pub proof fn law_commit_keeps_sound(m: Ledger, record: RecordView, token: u64)
    requires
        ledger::sound(m),
    ensures
        ledger::sound(ledger::commit(m, record, token)),
{
    if ledger::acknowledges(m, record, token) {
        let staged = m.pending[record];
        let told = match ledger::lookup(m.sessions, record) {
            Some(told) => told,
            None => Map::empty(),
        };
        let mid = Ledger {
            pending: m.pending.remove(record),
            sessions: m.sessions.insert(record, ledger::apply_updates(told, staged.updates)),
            ..m
        };
        lemma_commit_named(mid, record, staged.snapshots);
    }
}

/// Restamping keeps reports under their files.
proof fn lemma_restamp_kept(retained: Queues, key: Seq<char>, from: u64, to: u64)
    requires
        ledger::kept_under_key(retained),
    ensures
        ledger::kept_under_key(ledger::restamp(retained, key, from, to)),
{
    let after = ledger::restamp(retained, key, from, to);
    lemma_kept(retained);
    assert forall|w: RecordView, k: Seq<char>| #[trigger] all_of(
        ledger::queue_at(after, w, k),
        k,
    ) by {
        let queue = ledger::queue_at(retained, w, k);
        assert(all_of(queue, k));
        if retained.dom().contains(w) && retained[w].dom().contains(k) && k == key {
            assert(ledger::queue_at(after, w, k) == ledger::restamped(queue, from, to));
            assert forall|i: int| 0 <= i < queue.len() implies (#[trigger] ledger::restamped(
                queue,
                from,
                to,
            )[i]).file.key == k && ledger::restamped(queue, from, to)[i].hash == ledger::restamped(
                queue,
                from,
                to,
            )[i].file.hash() by {
                assert(queue[i].file.key == k);
            }
        } else {
            assert(ledger::queue_at(after, w, k) == queue);
        }
    }
    lemma_kept(after);
}

/// Rows written, dropped or overwritten with written ones stay written.
proof fn lemma_written_rows(
    ownership: Owners,
    k: (Seq<char>, Seq<char>),
    v: OwnerView,
    begun: u64,
)
    requires
        ledger::all_written(ownership, begun),
        v.writers != Set::<RecordView>::empty(),
        0 < v.generation <= begun,
    ensures
        ledger::all_written(table::put_row(ownership, k, v), begun),
        ledger::all_written(table::drop_row(ownership, k), begun),
{
    let put = table::put_row(ownership, k, v);
    assert forall|i: int| 0 <= i < put.len() implies (#[trigger] put[i]).1.writers
        != Set::<RecordView>::empty() && 0 < put[i].1.generation <= begun by {
        if i < ownership.len() {
            assert(put[i] == ownership[i] || put[i] == (k, v));
        }
    }
    let left = table::drop_row(ownership, k);
    assert forall|i: int| 0 <= i < left.len() implies (#[trigger] left[i]).1.writers
        != Set::<RecordView>::empty() && 0 < left[i].1.generation <= begun by {
        if table::has_row(ownership, k) {
            let at = table::row_of(ownership, k);
            assert(left[i] == if i < at { ownership[i] } else { ownership[i + 1] });
        }
    }
}

/// Rows with registered writers stay such.
proof fn lemma_registered_rows(
    ownership: Owners,
    k: (Seq<char>, Seq<char>),
    v: OwnerView,
    roots: Set<RecordView>,
)
    requires
        forall|i: int|
            0 <= i < ownership.len() ==> (#[trigger] ownership[i]).1.writers.subset_of(roots),
        v.writers.subset_of(roots),
    ensures
        forall|i: int|
            0 <= i < table::put_row(ownership, k, v).len() ==> (#[trigger] table::put_row(
                ownership,
                k,
                v,
            )[i]).1.writers.subset_of(roots),
        forall|i: int|
            0 <= i < table::drop_row(ownership, k).len() ==> (#[trigger] table::drop_row(
                ownership,
                k,
            )[i]).1.writers.subset_of(roots),
{
    let put = table::put_row(ownership, k, v);
    assert forall|i: int| 0 <= i < put.len() implies (#[trigger] put[i]).1.writers.subset_of(
        roots,
    ) by {
        if i < ownership.len() {
            assert(put[i] == ownership[i] || put[i] == (k, v));
        }
    }
    let left = table::drop_row(ownership, k);
    assert forall|i: int| 0 <= i < left.len() implies (#[trigger] left[i]).1.writers.subset_of(
        roots,
    ) by {
        if table::has_row(ownership, k) {
            let at = table::row_of(ownership, k);
            assert(left[i] == if i < at { ownership[i] } else { ownership[i + 1] });
        }
    }
}

/// Adopting files keeps the ledger sound.
pub proof fn lemma_adopt_sound(m: Ledger, from: Seq<char>, root: Seq<char>, keys: Seq<Seq<char>>)
    requires
        ledger::sound(m),
    ensures
        ledger::sound(ledger::adopt_files(m, from, root, keys)),
        ledger::adopt_files(m, from, root, keys).next_generation == m.next_generation,
        ledger::adopt_files(m, from, root, keys).roots == m.roots,
    decreases keys.len(),
{
    if keys.len() > 0 {
        lemma_adopt_sound(m, from, root, keys.drop_last());
        let before = ledger::adopt_files(m, from, root, keys.drop_last());
        let begun = before.next_generation;
        let key = keys.last();
        table::lemma_drop_row(before.ownership, (from, key));
        let rest = crate::table::drop_row(before.ownership, (from, key));
        table::lemma_drop_row(rest, (root, key));
        if crate::table::has_row(before.ownership, (from, key)) {
            let owner = before.ownership[crate::table::row_of(before.ownership, (from, key))].1;
            if crate::table::has_row(rest, (root, key)) {
                let existing = rest[crate::table::row_of(rest, (root, key))].1;
                let merged = ledger::merge_owner(owner, existing);
                lemma_written_rows(before.ownership, (from, key), owner, begun);
                assert(existing.writers != Set::<RecordView>::empty());
                assert(merged.writers != Set::<RecordView>::empty()) by {
                    if forall|x: RecordView| !owner.writers.contains(x) {
                        assert(owner.writers =~= Set::<RecordView>::empty());
                    }
                    let x = choose|x: RecordView| owner.writers.contains(x);
                    assert(owner.writers.union(existing.writers).contains(x));
                }
                lemma_written_rows(rest, (root, key), merged, begun);
                lemma_written_rows(table::drop_row(rest, (root, key)), (root, key), merged, begun);
                lemma_registered_rows(before.ownership, (from, key), owner, before.roots.dom());
                assert(existing.writers.subset_of(before.roots.dom()));
                lemma_registered_rows(rest, (root, key), merged, before.roots.dom());
                lemma_registered_rows(
                    table::drop_row(rest, (root, key)),
                    (root, key),
                    merged,
                    before.roots.dom(),
                );
                table::lemma_put_row(
                    crate::table::drop_row(rest, (root, key)),
                    (root, key),
                    ledger::merge_owner(owner, existing),
                );
                lemma_restamp_kept(
                    before.retained,
                    key,
                    existing.generation,
                    owner.generation,
                );
            } else {
                lemma_written_rows(before.ownership, (from, key), owner, begun);
                lemma_written_rows(rest, (root, key), owner, begun);
                lemma_registered_rows(before.ownership, (from, key), owner, before.roots.dom());
                lemma_registered_rows(rest, (root, key), owner, before.roots.dom());
                table::lemma_put_row(rest, (root, key), owner);
            }
        }
    }
}

/// Registering a caller keeps the ledger sound.
pub proof fn law_register_keeps_sound(m: Ledger, caller: CallerView)
    requires
        ledger::sound(m),
    ensures
        ledger::sound(ledger::register(m, caller)),
{
    match (ledger::provisional(m, caller), caller.root) {
        (Some(own), Some(root)) => {
            lemma_adopt_sound(m, own, root, ledger::files_of(m.ownership, own));
            lemma_more_roots(ledger::adopt(m, own, root), ledger::register(m, caller));
        },
        _ => {
            lemma_more_roots(m, ledger::register(m, caller));
        },
    }
}

proof fn lemma_more_roots(before: Ledger, after: Ledger)
    requires
        ledger::all_registered(before.ownership, before.retained, before.roots),
        after.ownership == before.ownership,
        after.retained == before.retained,
        before.roots.dom().subset_of(after.roots.dom()),
    ensures
        ledger::all_registered(after.ownership, after.retained, after.roots),
{
    assert forall|i: int| 0 <= i < after.ownership.len() implies (#[trigger]
    after.ownership[i]).1.writers.subset_of(after.roots.dom()) by {
        assert(before.ownership[i].1.writers.subset_of(before.roots.dom()));
    }
}

/// Claiming files keeps the ledger sound.
pub(crate) proof fn lemma_claim_sound(m: Ledger, root: Seq<char>, keys: Seq<Seq<char>>, record: RecordView)
    requires
        ledger::sound(m),
        m.roots.dom().contains(record),
        m.next_generation + keys.len() <= u64::MAX,
    ensures
        ledger::sound(ledger::claim_all(m, root, keys, record)),
        ledger::claim_all(m, root, keys, record).roots == m.roots,
        m.next_generation <= ledger::claim_all(m, root, keys, record).next_generation
            <= m.next_generation + keys.len(),
    decreases keys.len(),
{
    if keys.len() > 0 {
        lemma_claim_sound(m, root, keys.drop_last(), record);
        let before = ledger::claim_all(m, root, keys.drop_last(), record);
        let key = keys.last();
        let owner = ledger::owner_at(before.ownership, root, key);
        let generation = (before.next_generation + 1) as u64;
        assert(Set::<RecordView>::empty().insert(record).contains(record));
        assert(owner.writers.insert(record).contains(record));
        assert(ledger::all_written(before.ownership, generation));
        lemma_registered_rows(
            before.ownership,
            (root, key),
            OwnerView {
                generation,
                delivered: false,
                writers: Set::empty().insert(record),
            },
            before.roots.dom(),
        );
        assert(owner.writers.subset_of(before.roots.dom()));
        lemma_registered_rows(
            before.ownership,
            (root, key),
            OwnerView { writers: owner.writers.insert(record), ..owner },
            before.roots.dom(),
        );
        lemma_written_rows(
            before.ownership,
            (root, key),
            OwnerView {
                generation,
                delivered: false,
                writers: Set::empty().insert(record),
            },
            generation,
        );
        if owner.generation > 0 {
            lemma_written_rows(
                before.ownership,
                (root, key),
                OwnerView { writers: owner.writers.insert(record), ..owner },
                before.next_generation,
            );
        }
        table::lemma_put_row(
            before.ownership,
            (root, key),
            OwnerView {
                generation,
                delivered: false,
                writers: Set::empty().insert(record),
            },
        );
        table::lemma_put_row(
            before.ownership,
            (root, key),
            OwnerView { writers: owner.writers.insert(record), ..owner },
        );
    }
}

/// Attributing a write keeps the ledger sound.
pub proof fn law_write_keeps_sound(m: Ledger, caller: CallerView, keys: Seq<Seq<char>>)
    requires
        ledger::sound(m),
        m.next_generation + keys.len() <= u64::MAX,
    ensures
        ledger::sound(ledger::write(m, caller, keys)),
{
    law_register_keeps_sound(m, caller);
    let known = ledger::register(m, caller);
    if let (Some(own), Some(root)) = (ledger::provisional(m, caller), caller.root) {
        lemma_adopt_sound(m, own, root, ledger::files_of(m.ownership, own));
    }
    lemma_claim_sound(
        known,
        ledger::owning_root(known, caller.record, caller.record.session()),
        keys,
        caller.record,
    );
}

/// A write begins a new cycle where the file had none under way: its number is
/// higher than that of every owner so far. Where one is under way the writer
/// joins it.
pub proof fn law_a_new_cycle_is_new(m: Ledger, root: Seq<char>, key: Seq<char>, record: RecordView)
    requires
        ledger::sound(m),
        m.next_generation < u64::MAX,
    ensures
        ({
            let before = ledger::owner_at(m.ownership, root, key);
            let after = ledger::claim(m, root, key, record);
            let owner = ledger::owner_at(after.ownership, root, key);
            &&& owner.writers.contains(record) && !owner.delivered
            &&& !table::has_row(m.ownership, (root, key)) || before.delivered ==> {
                &&& owner.generation == after.next_generation
                &&& owner.writers == Set::<RecordView>::empty().insert(record)
                &&& forall|i: int|
                    0 <= i < m.ownership.len() ==> (#[trigger] m.ownership[i]).1.generation
                        < owner.generation
            }
            &&& table::has_row(m.ownership, (root, key)) && !before.delivered ==> {
                &&& owner.generation == before.generation
                &&& owner.writers == before.writers.insert(record)
                &&& after.next_generation == m.next_generation
            }
        }),
{
    let before = ledger::owner_at(m.ownership, root, key);
    let generation = (m.next_generation + 1) as u64;
    let fresh = OwnerView {
        generation,
        delivered: false,
        writers: Set::<RecordView>::empty().insert(record),
    };
    let joined = OwnerView { writers: before.writers.insert(record), ..before };
    lemma_put_owner(m.ownership, root, key, fresh);
    lemma_put_owner(m.ownership, root, key, joined);
    if table::has_row(m.ownership, (root, key)) {
        let at = table::row_of(m.ownership, (root, key));
        assert(m.ownership[at].1.generation > 0);
    }
}

proof fn lemma_put_owner(ownership: Owners, root: Seq<char>, key: Seq<char>, owner: OwnerView)
    requires
        table::distinct_rows(ownership),
    ensures
        ledger::owner_at(table::put_row(ownership, (root, key), owner), root, key) == owner,
{
    let after = table::put_row(ownership, (root, key), owner);
    table::lemma_put_row(ownership, (root, key), owner);
    table::lemma_rows_map(after);
    assert(table::rows_map(after).dom().contains((root, key)));
}

/// A selection of rows has no key twice if the rows had none.
pub proof fn lemma_filter_distinct<A, B>(rows: Seq<(A, B)>, keep: spec_fn((A, B)) -> bool)
    requires
        table::distinct_rows(rows),
    ensures
        table::distinct_rows(rows.filter(keep)),
        forall|i: int|
            0 <= i < rows.filter(keep).len() ==> rows.contains(#[trigger] rows.filter(keep)[i])
                && keep(rows.filter(keep)[i]),
    decreases rows.len(),
{
    reveal(Seq::filter);
    if rows.len() > 0 {
        let init = rows.drop_last();
        assert forall|i: int, j: int| 0 <= i < j < init.len() implies (#[trigger] init[i]).0 != (
        #[trigger] init[j]).0 by {
            assert(rows[i].0 != rows[j].0);
        }
        lemma_filter_distinct(init, keep);
        let part = init.filter(keep);
        let whole = rows.filter(keep);
        assert forall|i: int| 0 <= i < whole.len() implies rows.contains(#[trigger] whole[i])
            && keep(whole[i]) by {
            if i < part.len() {
                assert(whole[i] == part[i]);
                assert(init.contains(part[i]));
                let j = choose|j: int| 0 <= j < init.len() && init[j] == part[i];
                assert(rows[j] == whole[i]);
            } else {
                assert(rows[rows.len() - 1] == whole[i]);
            }
        }
        assert forall|i: int, j: int| 0 <= i < j < whole.len() implies (#[trigger] whole[i]).0 != (
        #[trigger] whole[j]).0 by {
            if j < part.len() {
                assert(part[i].0 != part[j].0);
            } else {
                assert(init.contains(part[i]));
                let x = choose|x: int| 0 <= x < init.len() && init[x] == part[i];
                assert(rows[x].0 != rows[rows.len() - 1].0);
            }
        }
    }
}

/// Dropping writers keeps each file under one owner.
pub proof fn lemma_without_writers(ownership: Owners, gone: Set<RecordView>, begun: u64)
    requires
        table::distinct_rows(ownership),
        ledger::all_written(ownership, begun),
    ensures
        table::distinct_rows(ledger::without_writers(ownership, gone)),
        ledger::all_written(ledger::without_writers(ownership, gone), begun),
{
    let thinned = ownership.map_values(
        |row: ((Seq<char>, Seq<char>), OwnerView)|
            (row.0, OwnerView { writers: row.1.writers.difference(gone), ..row.1 }),
    );
    table::lemma_same_keys(ownership, thinned);
    lemma_filter_distinct(
        thinned,
        |row: ((Seq<char>, Seq<char>), OwnerView)| row.1.writers != Set::<RecordView>::empty(),
    );
    let left = ledger::without_writers(ownership, gone);
    assert forall|i: int| 0 <= i < left.len() implies (#[trigger] left[i]).1.writers
        != Set::<RecordView>::empty() && 0 < left[i].1.generation <= begun by {
        assert(thinned.contains(left[i]));
        let j = choose|j: int| 0 <= j < thinned.len() && thinned[j] == left[i];
        assert(ownership[j].1.generation == left[i].1.generation);
    }
}

/// Ending records keeps the ledger sound.
pub proof fn law_end_keeps_sound(m: Ledger, gone: Set<RecordView>)
    requires
        ledger::sound(m),
    ensures
        ledger::sound(ledger::end_records(m, gone)),
{
    lemma_without_writers(m.ownership, gone, m.next_generation);
    let after = ledger::end_records(m, gone);
    lemma_kept(m.retained);
    assert forall|w: RecordView, k: Seq<char>| #[trigger] all_of(
        ledger::queue_at(after.retained, w, k),
        k,
    ) by {
        assert(all_of(ledger::queue_at(m.retained, w, k), k));
    }
    lemma_kept(after.retained);
    lemma_left_registered(m.ownership, gone, m.roots.dom());
    assert(after.roots.dom() =~= m.roots.dom().difference(gone));
}

proof fn lemma_left_registered(ownership: Owners, gone: Set<RecordView>, roots: Set<RecordView>)
    requires
        table::distinct_rows(ownership),
        forall|i: int|
            0 <= i < ownership.len() ==> (#[trigger] ownership[i]).1.writers.subset_of(roots),
    ensures
        forall|i: int|
            0 <= i < ledger::without_writers(ownership, gone).len() ==> (
            #[trigger] ledger::without_writers(ownership, gone)[i]).1.writers.subset_of(
                roots.difference(gone),
            ),
{
    let thinned = ownership.map_values(
        |row: ((Seq<char>, Seq<char>), OwnerView)|
            (row.0, OwnerView { writers: row.1.writers.difference(gone), ..row.1 }),
    );
    table::lemma_same_keys(ownership, thinned);
    lemma_filter_distinct(
        thinned,
        |row: ((Seq<char>, Seq<char>), OwnerView)| row.1.writers != Set::<RecordView>::empty(),
    );
    let left = ledger::without_writers(ownership, gone);
    assert forall|i: int| 0 <= i < left.len() implies (#[trigger] left[i]).1.writers.subset_of(
        roots.difference(gone),
    ) by {
        assert(thinned.contains(left[i]));
        let j = choose|j: int| 0 <= j < thinned.len() && thinned[j] == left[i];
        assert(ownership[j].1.writers.subset_of(roots));
    }
}

/// One owner more, without the writers that are gone.
pub proof fn lemma_without_push(
    rows: Owners,
    row: ((Seq<char>, Seq<char>), OwnerView),
    gone: Set<RecordView>,
)
    ensures
        ({
            let thin = OwnerView { writers: row.1.writers.difference(gone), ..row.1 };
            ledger::without_writers(rows.push(row), gone) == if thin.writers
                != Set::<RecordView>::empty() {
                ledger::without_writers(rows, gone).push((row.0, thin))
            } else {
                ledger::without_writers(rows, gone)
            }
        }),
{
    reveal(Seq::filter);
    let f = |row: ((Seq<char>, Seq<char>), OwnerView)|
        (row.0, OwnerView { writers: row.1.writers.difference(gone), ..row.1 });
    assert(rows.push(row).map_values(f) =~= rows.map_values(f).push(f(row)));
    assert(rows.map_values(f).push(f(row)).drop_last() =~= rows.map_values(f));
}

/// Dropping no writer drops nothing.
proof fn lemma_without_none(rows: Owners, begun: u64)
    requires
        ledger::all_written(rows, begun),
    ensures
        ledger::without_writers(rows, Set::empty()) == rows,
    decreases rows.len(),
{
    let none = Set::<RecordView>::empty();
    if rows.len() > 0 {
        let init = rows.drop_last();
        let last = rows.last();
        assert forall|i: int| 0 <= i < init.len() implies (#[trigger] init[i]).1.writers
            != none && 0 < init[i].1.generation <= begun by {
            assert(init[i] == rows[i]);
        }
        lemma_without_none(init, begun);
        assert(rows =~= init.push(last));
        lemma_without_push(init, last, none);
        assert(last.1.writers.difference(none) =~= last.1.writers);
        assert(last == rows[rows.len() - 1]);
    } else {
        reveal(Seq::filter);
        assert(ledger::without_writers(rows, none) =~= rows);
    }
}

/// Dropping writers twice drops both.
proof fn lemma_without_twice(rows: Owners, a: Set<RecordView>, b: Set<RecordView>)
    ensures
        ledger::without_writers(ledger::without_writers(rows, a), b) == ledger::without_writers(
            rows,
            a.union(b),
        ),
    decreases rows.len(),
{
    if rows.len() > 0 {
        let init = rows.drop_last();
        let last = rows.last();
        lemma_without_twice(init, a, b);
        assert(rows =~= init.push(last));
        lemma_without_push(init, last, a);
        lemma_without_push(init, last, a.union(b));
        let thin = OwnerView { writers: last.1.writers.difference(a), ..last.1 };
        lemma_without_push(ledger::without_writers(init, a), (last.0, thin), b);
        assert(thin.writers.difference(b) =~= last.1.writers.difference(a.union(b)));
        if thin.writers == Set::<RecordView>::empty() {
            assert(thin.writers.difference(b) =~= Set::<RecordView>::empty());
        }
    } else {
        reveal(Seq::filter);
        assert(ledger::without_writers(rows, a) =~= rows);
        assert(ledger::without_writers(rows, b) =~= rows);
        assert(ledger::without_writers(rows, a.union(b)) =~= rows);
    }
}

/// Ending no record changes nothing.
pub proof fn lemma_end_none(m: Ledger)
    requires
        ledger::sound(m),
    ensures
        ledger::end_records(m, Set::empty()) == m,
{
    let none = Set::<RecordView>::empty();
    let after = ledger::end_records(m, none);
    lemma_without_none(m.ownership, m.next_generation);
    assert(after.sessions =~= m.sessions);
    assert(after.pending =~= m.pending);
    assert(after.roots =~= m.roots);
    assert(after.retained =~= m.retained);
    assert(after.lifetime.records =~= m.lifetime.records);
    assert forall|c: u64| #[trigger] m.lifetime.connections.dom().contains(c) implies m.lifetime.connections[c]
        == after.lifetime.connections[c] by {
        assert(m.lifetime.connections[c].difference(none) =~= m.lifetime.connections[c]);
    }
    assert(after.lifetime.connections =~= m.lifetime.connections);
}

/// Ending records in two steps ends them all.
pub proof fn law_ending_in_steps(m: Ledger, a: Set<RecordView>, b: Set<RecordView>)
    ensures
        ledger::end_records(ledger::end_records(m, a), b) == ledger::end_records(m, a.union(b)),
{
    let twice = ledger::end_records(ledger::end_records(m, a), b);
    let once = ledger::end_records(m, a.union(b));
    lemma_without_twice(m.ownership, a, b);
    assert(twice.sessions =~= once.sessions);
    assert(twice.pending =~= once.pending);
    assert(twice.roots =~= once.roots);
    assert(twice.retained =~= once.retained);
    assert(twice.lifetime.records =~= once.lifetime.records);
    assert forall|c: u64| #[trigger] m.lifetime.connections.dom().contains(c) implies twice.lifetime.connections[c]
        == once.lifetime.connections[c] by {
        assert(m.lifetime.connections[c].difference(a).difference(b)
            =~= m.lifetime.connections[c].difference(a.union(b)));
    }
    assert(twice.lifetime.connections =~= once.lifetime.connections);
}

/// Expiry keeps the ledger sound.
pub proof fn law_expire_keeps_sound(m: Ledger, now: u64)
    requires
        ledger::sound(m),
    ensures
        ledger::sound(ledger::expire(m, now)),
{
    law_end_keeps_sound(
        Ledger { lifetime: ledger::expire_life(m.lifetime, now), ..m },
        ledger::expired_by(m.lifetime, now),
    );
}

} // verus!
