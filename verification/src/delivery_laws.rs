//! What delivery promises.

use crate::config::{DiagnosticsConfig, SeverityFloor};
use crate::diagnostics;
use crate::diagnostics::DiagnosticView;
use crate::identity::{CallerView, RecordView};
use crate::ledger;
use crate::ledger::{ChangedView, EntryView, Ledger, Record, Recipient, RetainedView};
use crate::soundness;
use crate::table;
use crate::telling_laws;
use crate::text;
use vstd::prelude::*;

verus! {

/// The texts that are hashed for `list`, before they are sorted.
spec fn parts(list: Seq<DiagnosticView>, floor: SeverityFloor) -> Seq<Seq<char>> {
    diagnostics::visible(list, floor).map_values(
        |d: DiagnosticView| diagnostics::part_text(d),
    )
}

/// One diagnostic more is one text more, if the floor shows it.
proof fn lemma_parts_push(list: Seq<DiagnosticView>, d: DiagnosticView, floor: SeverityFloor)
    ensures
        parts(list.push(d), floor) == if floor.passes(d.severity) {
            parts(list, floor).push(diagnostics::part_text(d))
        } else {
            parts(list, floor)
        },
{
    reveal(Seq::filter);
    assert(list.push(d).drop_last() =~= list);
    if floor.passes(d.severity) {
        assert(parts(list.push(d), floor) =~= parts(list, floor).push(diagnostics::part_text(d)));
    } else {
        assert(parts(list.push(d), floor) =~= parts(list, floor));
    }
}

/// Taking a diagnostic out takes its text out.
proof fn lemma_parts_remove(list: Seq<DiagnosticView>, i: int, floor: SeverityFloor)
    requires
        0 <= i < list.len(),
    ensures
        parts(list, floor).to_multiset() == if floor.passes(list[i].severity) {
            parts(list.remove(i), floor).to_multiset().insert(diagnostics::part_text(list[i]))
        } else {
            parts(list.remove(i), floor).to_multiset()
        },
    decreases list.len(),
{
    let last = list.last();
    let init = list.drop_last();
    assert(list =~= init.push(last));
    lemma_parts_push(init, last, floor);
    parts(init, floor).to_multiset_ensures();
    if i == list.len() - 1 {
        assert(list.remove(i) =~= init);
    } else {
        lemma_parts_remove(init, i, floor);
        assert(list.remove(i) =~= init.remove(i).push(last));
        lemma_parts_push(init.remove(i), last, floor);
        parts(init.remove(i), floor).to_multiset_ensures();
        assert(parts(list, floor).to_multiset() =~= if floor.passes(list[i].severity) {
            parts(list.remove(i), floor).to_multiset().insert(diagnostics::part_text(list[i]))
        } else {
            parts(list.remove(i), floor).to_multiset()
        });
    }
}

proof fn lemma_parts_multiset(
    a: Seq<DiagnosticView>,
    b: Seq<DiagnosticView>,
    floor: SeverityFloor,
)
    requires
        a.to_multiset() == b.to_multiset(),
    ensures
        parts(a, floor).to_multiset() == parts(b, floor).to_multiset(),
    decreases a.len(),
{
    a.to_multiset_ensures();
    b.to_multiset_ensures();
    if a.len() > 0 {
        let last = a.last();
        assert(a.to_multiset().contains(last)) by {
            assert(a.contains(last));
        }
        assert(b.contains(last));
        let i = choose|i: int| 0 <= i < b.len() && b[i] == last;
        assert(a.remove(a.len() - 1) =~= a.drop_last());
        lemma_parts_multiset(a.drop_last(), b.remove(i), floor);
        lemma_parts_remove(a, a.len() - 1, floor);
        lemma_parts_remove(b, i, floor);
    } else {
        assert(b.len() == 0);
        assert(a =~= b);
    }
}

/// The hash ignores the order in which diagnostics are published.
pub proof fn law_hash_ignores_publish_order(
    a: Seq<DiagnosticView>,
    b: Seq<DiagnosticView>,
    floor: SeverityFloor,
)
    requires
        a.to_multiset() == b.to_multiset(),
    ensures
        diagnostics::hash_of(a, floor) == diagnostics::hash_of(b, floor),
{
    lemma_parts_multiset(a, b, floor);
    let x = parts(a, floor);
    let y = parts(b, floor);
    x.to_multiset_ensures();
    y.to_multiset_ensures();
    let order = text::text_order();
    text::lemma_text_order();
    x.lemma_sort_by_ensures(order);
    y.lemma_sort_by_ensures(order);
    vstd::seq_lib::lemma_sorted_unique(x.sort_by(order), y.sort_by(order), order);
    assert(x.len() == diagnostics::visible(a, floor).len());
    assert(y.len() == diagnostics::visible(b, floor).len());
}

/// What the floor does not show does not change the hash.
pub proof fn law_hash_ignores_what_the_floor_hides(
    list: Seq<DiagnosticView>,
    d: DiagnosticView,
    floor: SeverityFloor,
)
    requires
        !floor.passes(d.severity),
    ensures
        diagnostics::hash_of(list.push(d), floor) == diagnostics::hash_of(list, floor),
{
    reveal(Seq::filter);
    assert(list.push(d).drop_last() =~= list);
    assert(diagnostics::visible(list.push(d), floor) =~= diagnostics::visible(list, floor));
}

/// A muted file shows nothing.
pub proof fn law_a_muted_file_shows_nothing(list: Seq<DiagnosticView>)
    ensures
        diagnostics::visible(list, SeverityFloor::Off).len() == 0,
        diagnostics::hash_of(list, SeverityFloor::Off) is None,
    decreases list.len(),
{
    reveal(Seq::filter);
    if list.len() > 0 {
        law_a_muted_file_shows_nothing(list.drop_last());
    }
}

/// How much of the budget a report has used: one for each diagnostic delivered
/// and one for each file cleared.
pub open spec fn cost(changed: Seq<ChangedView>) -> int
    decreases changed.len(),
{
    if changed.len() == 0 {
        0
    } else {
        cost(changed.drop_last()) + changed.last().diagnostics.len()
    }
}

/// A report stays within its caps, and the budget left is what it did not use.
pub proof fn law_a_report_stays_within_its_caps(
    config: DiagnosticsConfig,
    record: Record,
    entries: Seq<EntryView>,
)
    ensures
        ({
            let d = ledger::diff_all(config, record, entries);
            &&& config.max_total == 0 <==> d.budget is None
            &&& d.budget matches Some(left) ==> 0 <= left && cost(d.report.changed)
                + d.report.cleared.len() + left == config.max_total
            &&& config.max_per_file > 0 ==> forall|i: int|
                0 <= i < d.report.changed.len() ==> (
                #[trigger] d.report.changed[i]).diagnostics.len() <= config.max_per_file
        }),
    decreases entries.len(),
{
    if entries.len() > 0 {
        law_a_report_stays_within_its_caps(config, record, entries.drop_last());
        let before = ledger::diff_all(config, record, entries.drop_last());
        let after = ledger::diff_all(config, record, entries);
        if after.report.changed != before.report.changed {
            assert(after.report.changed.drop_last() =~= before.report.changed);
        }
    }
}

/// What a delivered file omits is what it shows less what is delivered.
pub proof fn law_omissions_are_counted(
    config: DiagnosticsConfig,
    record: Record,
    entries: Seq<EntryView>,
    i: int,
)
    requires
        0 <= i < ledger::diff_all(config, record, entries).report.changed.len(),
    ensures
        exists|j: int|
            0 <= j < entries.len() && ({
                let file = ledger::diff_all(config, record, entries).report.changed[i];
                &&& (#[trigger] entries[j]).key == file.key
                &&& file.diagnostics.is_prefix_of(entries[j].shown())
                &&& file.omitted == entries[j].shown().len() - file.diagnostics.len()
            }),
    decreases entries.len(),
{
    if entries.len() > 0 {
        let before = ledger::diff_all(config, record, entries.drop_last());
        let after = ledger::diff_all(config, record, entries);
        law_a_report_stays_within_its_caps(config, record, entries.drop_last());
        if i < before.report.changed.len() {
            law_omissions_are_counted(config, record, entries.drop_last(), i);
            let file = before.report.changed[i];
            let j = choose|j: int|
                0 <= j < entries.drop_last().len() && ({
                    &&& (#[trigger] entries.drop_last()[j]).key == file.key
                    &&& file.diagnostics.is_prefix_of(entries.drop_last()[j].shown())
                    &&& file.omitted == entries.drop_last()[j].shown().len()
                        - file.diagnostics.len()
                });
            assert(entries[j] == entries.drop_last()[j]);
        } else {
            assert(entries[entries.len() - 1] == entries.last());
        }
    }
}

/// A report that implies no record change says nothing: where there is nothing
/// to acknowledge, nothing was delivered or cleared.
pub proof fn law_nothing_to_acknowledge_means_nothing_said(
    config: DiagnosticsConfig,
    record: Record,
    entries: Seq<EntryView>,
)
    ensures
        ({
            let d = ledger::diff_all(config, record, entries);
            d.report.changed.len() + d.report.cleared.len() <= d.updates.len()
        }),
    decreases entries.len(),
{
    if entries.len() > 0 {
        law_nothing_to_acknowledge_means_nothing_said(config, record, entries.drop_last());
    }
}

/// Muting files reports none of them, neither as changed nor as fixed.
pub proof fn law_muted_is_not_fixed(
    config: DiagnosticsConfig,
    record: Record,
    entries: Seq<EntryView>,
)
    requires
        forall|i: int| 0 <= i < entries.len() ==> (#[trigger] entries[i]).floor == SeverityFloor::Off,
    ensures
        ({
            let d = ledger::diff_all(config, record, entries);
            d.report.changed.len() == 0 && d.report.cleared.len() == 0 && d.report.omitted == 0
        }),
    decreases entries.len(),
{
    if entries.len() > 0 {
        let init = entries.drop_last();
        assert forall|i: int| 0 <= i < init.len() implies (#[trigger] init[i]).floor
            == SeverityFloor::Off by {
            assert(init[i] == entries[i]);
        }
        law_muted_is_not_fixed(config, record, init);
        assert(entries.last() == entries[entries.len() - 1]);
        law_a_muted_file_shows_nothing(entries.last().diagnostics);
    }
}

/// A file that the pass defers keeps its place in the record: whatever is not
/// delivered, cleared or muted is not changed by acknowledging the report.
pub proof fn law_only_reported_files_move(
    config: DiagnosticsConfig,
    record: Record,
    entries: Seq<EntryView>,
    key: Seq<char>,
)
    requires
        forall|i: int|
            0 <= i < ledger::diff_all(config, record, entries).updates.len() ==> (
            #[trigger] ledger::diff_all(config, record, entries).updates[i]).0 != key,
    ensures
        ledger::lookup(
            ledger::apply_updates(record, ledger::diff_all(config, record, entries).updates),
            key,
        ) == ledger::lookup(record, key),
{
    lemma_untouched(record, ledger::diff_all(config, record, entries).updates, key);
}

proof fn lemma_untouched(record: Record, updates: Seq<(Seq<char>, Option<u64>)>, key: Seq<char>)
    requires
        forall|i: int| 0 <= i < updates.len() ==> (#[trigger] updates[i]).0 != key,
    ensures
        ledger::lookup(ledger::apply_updates(record, updates), key) == ledger::lookup(record, key),
    decreases updates.len(),
{
    if updates.len() > 0 {
        let init = updates.drop_last();
        assert forall|i: int| 0 <= i < init.len() implies (#[trigger] init[i]).0 != key by {
            assert(init[i] == updates[i]);
        }
        lemma_untouched(record, init, key);
        assert(updates.last() == updates[updates.len() - 1]);
    }
}

/// Whether `list` has a file `k`.
pub open spec fn listed(list: Seq<EntryView>, k: Seq<char>) -> bool {
    exists|i: int| 0 <= i < list.len() && (#[trigger] list[i]).key == k
}

/// Files that show what is recorded are not reported.
pub(crate) proof fn lemma_nothing_new(config: DiagnosticsConfig, record: Record, list: Seq<EntryView>)
    requires
        forall|i: int|
            0 <= i < list.len() ==> (#[trigger] list[i]).hash() == ledger::lookup(
                record,
                list[i].key,
            ),
    ensures
        ledger::diff_all(config, record, list) == ledger::diff_start(config),
    decreases list.len(),
{
    if list.len() > 0 {
        let init = list.drop_last();
        assert forall|i: int| 0 <= i < init.len() implies (#[trigger] init[i]).hash()
            == ledger::lookup(record, init[i].key) by {
            assert(init[i] == list[i]);
        }
        lemma_nothing_new(config, record, init);
        assert(list.last() == list[list.len() - 1]);
    }
}

/// Whether a report of file `k` is kept for `w` when `reader` asks.
pub open spec fn addressed(to: Seq<Recipient>, w: RecordView) -> bool {
    exists|j: int| 0 <= j < to.len() && (#[trigger] to[j]).writers.contains(w)
}

/// Whether `queue` has a report that shows `hash`.
pub open spec fn shows(queue: Seq<RetainedView>, hash: Option<u64>) -> bool {
    exists|x: int| 0 <= x < queue.len() && (#[trigger] queue[x]).hash == hash
}

/// What keeping reports of one file does to one queue.
pub(crate) proof fn lemma_queue_recipients(
    m: Ledger,
    e: EntryView,
    to: Seq<Recipient>,
    w: RecordView,
    k: Seq<char>,
)
    ensures
        ({
            let q0 = ledger::queue_at(m.retained, w, k);
            let q1 = ledger::queue_at(ledger::observe_recipients(m, e, to).retained, w, k);
            &&& q0.is_prefix_of(q1)
            &&& k != e.key ==> q1 == q0
            &&& k == e.key && addressed(to, w) ==> e.hash() == ledger::committed(m, w, k) || shows(
                q1,
                e.hash(),
            )
            &&& q0.len() == 0 && (k == e.key && addressed(to, w) ==> e.hash() == ledger::committed(
                m,
                w,
                k,
            )) ==> q1.len() == 0
        }),
    decreases to.len(),
{
    if to.len() > 0 {
        let init = to.drop_last();
        let last = to.last();
        lemma_queue_recipients(m, e, init, w, k);
        crate::attribution::lemma_observe_keeps(m, e, init);
        let before = ledger::observe_recipients(m, e, init);
        let after = ledger::observe_recipients(m, e, to);
        let q0 = ledger::queue_at(m.retained, w, k);
        let qm = ledger::queue_at(before.retained, w, k);
        let q1 = ledger::queue_at(after.retained, w, k);
        assert(addressed(to, w) == (addressed(init, w) || last.writers.contains(w))) by {
            if addressed(init, w) {
                let j = choose|j: int| 0 <= j < init.len() && (#[trigger] init[j]).writers.contains(w);
                assert(to[j].writers.contains(w));
            }
            if last.writers.contains(w) {
                assert(to[to.len() - 1].writers.contains(w));
            }
            if addressed(to, w) && !last.writers.contains(w) {
                let j = choose|j: int| 0 <= j < to.len() && (#[trigger] to[j]).writers.contains(w);
                assert(init[j].writers.contains(w));
            }
        }
        let report = ledger::report_of(before, e, last, (before.next_snapshot + 1) as u64);
        if last.writers.contains(w) && k == e.key {
            let told = ledger::committed(m, w, k);
            assert(q1 == ledger::offered(qm, told, report));
            if qm.len() > 0 {
                assert(qm.last() == qm[qm.len() - 1]);
            }
            if q1 == qm.push(report) {
                assert(q1[qm.len() as int].hash == e.hash());
            } else if qm.len() > 0 {
                assert(q1[qm.len() - 1].hash == e.hash());
            }
            if shows(qm, e.hash()) {
                let x = choose|x: int| 0 <= x < qm.len() && (#[trigger] qm[x]).hash == e.hash();
                assert(q1[x].hash == e.hash());
            }
        } else {
            assert(q1 == qm);
        }
    } else {
        assert(ledger::queue_at(m.retained, w, k).is_prefix_of(
            ledger::queue_at(m.retained, w, k),
        ));
    }
}

/// Whether an entry for file `k` is not what was told.
pub open spec fn news(entries: Seq<EntryView>, k: Seq<char>, told: Option<u64>) -> bool {
    exists|i: int|
        0 <= i < entries.len() && (#[trigger] entries[i]).key == k && entries[i].hash() != told
}

/// What observing does to one queue: it only grows, it grows only by news, and
/// news leave their trace.
pub(crate) proof fn lemma_queue_observe(
    m: Ledger,
    reader: Option<RecordView>,
    entries: Seq<EntryView>,
    w: RecordView,
    k: Seq<char>,
)
    ensures
        ({
            let to = ledger::recipients(m, reader, k);
            let told = ledger::committed(m, w, k);
            let q0 = ledger::queue_at(m.retained, w, k);
            let q1 = ledger::queue_at(ledger::observe(m, reader, entries).retained, w, k);
            &&& q0.is_prefix_of(q1)
            &&& forall|i: int|
                0 <= i < entries.len() && (#[trigger] entries[i]).key == k && addressed(to, w)
                    ==> entries[i].hash() == told || shows(q1, entries[i].hash())
            &&& q0.len() == 0 && !(addressed(to, w) && news(entries, k, told)) ==> q1.len() == 0
        }),
    decreases entries.len(),
{
    let to = ledger::recipients(m, reader, k);
    let told = ledger::committed(m, w, k);
    let q0 = ledger::queue_at(m.retained, w, k);
    if entries.len() > 0 {
        let init = entries.drop_last();
        let e = entries.last();
        lemma_queue_observe(m, reader, init, w, k);
        soundness::lemma_observe(m, reader, init);
        let before = ledger::observe(m, reader, init);
        lemma_queue_recipients(before, e, ledger::recipients(before, reader, e.key), w, k);
        assert(ledger::recipients(before, reader, k) == to);
        let qm = ledger::queue_at(before.retained, w, k);
        let q1 = ledger::queue_at(ledger::observe(m, reader, entries).retained, w, k);
        assert(e == entries[entries.len() - 1]);
        assert forall|i: int|
            0 <= i < entries.len() && (#[trigger] entries[i]).key == k && addressed(
                to,
                w,
            ) implies entries[i].hash() == told || shows(q1, entries[i].hash()) by {
            if i < init.len() {
                assert(init[i] == entries[i]);
                if shows(qm, entries[i].hash()) {
                    let x = choose|x: int|
                        0 <= x < qm.len() && (#[trigger] qm[x]).hash == entries[i].hash();
                    assert(q1[x] == qm[x]);
                }
            }
        }
        if q0.len() == 0 && !(addressed(to, w) && news(entries, k, told)) {
            assert(!(addressed(to, w) && news(init, k, told))) by {
                if news(init, k, told) {
                    let i = choose|i: int|
                        0 <= i < init.len() && (#[trigger] init[i]).key == k && init[i].hash()
                            != told;
                    assert(entries[i] == init[i]);
                }
            }
            if k == e.key && addressed(to, w) {
                assert(e.hash() == told);
            }
        }
    } else {
        assert(q0.is_prefix_of(q0));
    }
}

/// Owners that differ in their delivery alone have the same recipients.
pub(crate) proof fn lemma_owners_same(a: ledger::Owners, b: ledger::Owners, k: Seq<char>)
    requires
        a.len() == b.len(),
        forall|i: int|
            0 <= i < a.len() ==> (#[trigger] a[i]).0 == b[i].0 && a[i].1.generation
                == b[i].1.generation && a[i].1.writers == b[i].1.writers,
    ensures
        ledger::owners_of(a, k) == ledger::owners_of(b, k),
    decreases a.len(),
{
    if a.len() > 0 {
        assert forall|i: int| 0 <= i < a.drop_last().len() implies (#[trigger] a.drop_last()[i]).0
            == b.drop_last()[i].0 && a.drop_last()[i].1.generation
            == b.drop_last()[i].1.generation && a.drop_last()[i].1.writers
            == b.drop_last()[i].1.writers by {
            assert(a[i].0 == b[i].0);
        }
        lemma_owners_same(a.drop_last(), b.drop_last(), k);
        assert(a =~= a.drop_last().push(a.last()));
        assert(b =~= b.drop_last().push(b.last()));
        assert(a[a.len() - 1].0 == b[b.len() - 1].0);
        crate::attribution::lemma_owners_push(a.drop_last(), a.last(), k);
        crate::attribution::lemma_owners_push(b.drop_last(), b.last(), k);
    } else {
        assert(a =~= b);
    }
}

/// Discarding consumed reports changes neither who owns what nor whom reports
/// are kept for.
pub(crate) proof fn lemma_discard_owners(m: Ledger, record: RecordView)
    requires
        table::distinct_rows(m.ownership),
    ensures
        ({
            let after = ledger::discard(m, record);
            &&& forall|at: (Seq<char>, Seq<char>)| #[trigger]
                table::has_row(after.ownership, at) == table::has_row(m.ownership, at)
            &&& forall|k: Seq<char>| #[trigger]
                ledger::owners_of(after.ownership, k) == ledger::owners_of(m.ownership, k)
        }),
{
    let after = ledger::discard(m, record);
    if ledger::any_spent(m, record) {
        table::lemma_same_keys(m.ownership, after.ownership);
        assert forall|k: Seq<char>| #[trigger]
            ledger::owners_of(after.ownership, k) == ledger::owners_of(m.ownership, k) by {
            lemma_owners_same(after.ownership, m.ownership, k);
        }
    }
}

/// After discarding, no report leads its queue that shows what was told.
pub(crate) proof fn lemma_discard_fronts(m: Ledger, record: RecordView, k: Seq<char>)
    requires
        m.sessions.dom().contains(record),
    ensures
        ({
            let q0 = ledger::queue_at(m.retained, record, k);
            let q1 = ledger::queue_at(ledger::discard(m, record).retained, record, k);
            let told = ledger::lookup(m.sessions[record], k);
            &&& q1 == q0.skip(ledger::consumed(q0, told) as int)
            &&& q1.len() > 0 ==> q1[0].hash != told
            &&& q1.len() == 0 ==> forall|i: int|
                0 <= i < q0.len() ==> (#[trigger] q0[i]).hash == told
        }),
{
    let q0 = ledger::queue_at(m.retained, record, k);
    let told = ledger::lookup(m.sessions[record], k);
    soundness::lemma_consumed_bound(q0, told);
    if ledger::any_spent(m, record) {
        let files = m.retained[record];
        let mid = m.retained.insert(
            record,
            Map::new(
                |k: Seq<char>| files.dom().contains(k),
                |k: Seq<char>| files[k].skip(ledger::spent(m, record, k) as int),
            ),
        );
        soundness::lemma_tidy(mid, record);
        if files.dom().contains(k) {
            assert(ledger::queue_at(mid, record, k) == q0.skip(
                ledger::consumed(q0, told) as int,
            ));
        } else {
            assert(q0.skip(0) =~= q0);
        }
    } else {
        if q0.len() > 0 {
            assert(ledger::spent(m, record, k) == 0);
        }
        assert(q0.skip(0) =~= q0);
    }
}

/// Files that are admitted and what is current for them rest on the roots and
/// on who owns what.
pub(crate) proof fn lemma_current_same(a: Ledger, b: Ledger, record: RecordView, entries: Seq<EntryView>)
    requires
        a.roots == b.roots,
        forall|at: (Seq<char>, Seq<char>)| #[trigger]
            table::has_row(a.ownership, at) == table::has_row(b.ownership, at),
    ensures
        ledger::current_for(a, record, entries) == ledger::current_for(b, record, entries),
    decreases entries.len(),
{
    if entries.len() > 0 {
        lemma_current_same(a, b, record, entries.drop_last());
        assert(ledger::admitted(a, record, entries.last().key) == ledger::admitted(
            b,
            record,
            entries.last().key,
        ));
    }
}

/// What a record reads rests on the roots, on who owns what, and on the oldest
/// report of each of its queues.
pub(crate) proof fn lemma_routed_same(a: Ledger, b: Ledger, record: RecordView, entries: Seq<EntryView>)
    requires
        a.roots == b.roots,
        forall|at: (Seq<char>, Seq<char>)| #[trigger]
            table::has_row(a.ownership, at) == table::has_row(b.ownership, at),
        forall|k: Seq<char>|
            (#[trigger] ledger::queue_at(a.retained, record, k)).len() == 0 <==> ledger::queue_at(
                b.retained,
                record,
                k,
            ).len() == 0,
        forall|k: Seq<char>|
            (#[trigger] ledger::queue_at(a.retained, record, k)).len() > 0 ==> ledger::queue_at(
                b.retained,
                record,
                k,
            )[0] == ledger::queue_at(a.retained, record, k)[0],
    ensures
        ledger::routed(a, record, entries) == ledger::routed(b, record, entries),
        ledger::route(a, record, entries) == ledger::route(b, record, entries),
{
    lemma_current_same(a, b, record, entries);
    let x = ledger::routed(a, record, entries);
    let y = ledger::routed(b, record, entries);
    assert forall|k: Seq<char>| #[trigger] x.dom().contains(k) == y.dom().contains(k) by {
        assert(ledger::queue_at(a.retained, record, k).len() == 0 <==> ledger::queue_at(
            b.retained,
            record,
            k,
        ).len() == 0);
    }
    assert forall|k: Seq<char>| #[trigger] x.dom().contains(k) implies x[k] == y[k] by {
        assert(ledger::queue_at(a.retained, record, k).len() == 0 <==> ledger::queue_at(
            b.retained,
            record,
            k,
        ).len() == 0);
    }
    assert(x =~= y);
}

/// A staged report is offered again until it is acknowledged: composing it anew
/// over the same files gives the same report and the same record changes.
pub proof fn law_offered_until_acknowledged(m: Ledger, record: RecordView, entries: Seq<EntryView>)
    requires
        ledger::sound(m),
    ensures
        ({
            let again = ledger::composed(ledger::stage(m, record, entries), record, entries);
            let first = ledger::composed(m, record, entries);
            again == first
        }),
{
    let reader = Some(record);
    let start = ledger::seed(m, record);
    let seen = ledger::observe(start, reader, entries);
    let ready = ledger::prepared(m, record, entries);
    let staged = ledger::stage(m, record, entries);
    let seen2 = ledger::observe(staged, reader, entries);
    let ready2 = ledger::prepared(staged, record, entries);
    soundness::lemma_prepared(m, record, entries);
    soundness::lemma_observe(start, reader, entries);
    soundness::lemma_observe(staged, reader, entries);
    soundness::lemma_discard(seen, record);
    assert(ledger::seed(staged, record) == staged);
    lemma_discard_owners(seen, record);
    assert forall|k: Seq<char>| #[trigger]
        ledger::queue_at(ready.retained, record, k).is_prefix_of(
            ledger::queue_at(seen2.retained, record, k),
        ) && (ledger::queue_at(ready.retained, record, k).len() == 0 ==> ledger::queue_at(
            seen2.retained,
            record,
            k,
        ).len() == 0) && ledger::spent(seen2, record, k) == 0 by {
        let told = ledger::lookup(ready.sessions[record], k);
        let q = ledger::queue_at(ready.retained, record, k);
        let qs = ledger::queue_at(seen.retained, record, k);
        let q2 = ledger::queue_at(seen2.retained, record, k);
        lemma_queue_observe(start, reader, entries, record, k);
        lemma_queue_observe(staged, reader, entries, record, k);
        lemma_discard_fronts(seen, record, k);
        assert(ledger::committed(start, record, k) == told);
        assert(ledger::committed(staged, record, k) == told);
        let to = ledger::recipients(start, reader, k);
        assert(ledger::owners_of(seen.ownership, k) == ledger::owners_of(staged.ownership, k));
        assert(ledger::falls_back(staged, record, k) == ledger::falls_back(start, record, k)) by {
            match ledger::lookup(start.roots, record) {
                Some(Some(root)) => {
                    assert(table::has_row(staged.ownership, (root, k)) == table::has_row(
                        seen.ownership,
                        (root, k),
                    ));
                },
                _ => {},
            }
        }
        assert(ledger::recipients(staged, reader, k) == to);
        if q.len() == 0 {
            assert(!(addressed(to, record) && news(entries, k, told))) by {
                if addressed(to, record) && news(entries, k, told) {
                    let i = choose|i: int|
                        0 <= i < entries.len() && (#[trigger] entries[i]).key == k
                            && entries[i].hash() != told;
                    assert(shows(qs, entries[i].hash()));
                    let x = choose|x: int|
                        0 <= x < qs.len() && (#[trigger] qs[x]).hash == entries[i].hash();
                    assert(qs[x].hash == told);
                }
            }
            assert(q2.len() == 0);
        } else {
            assert(q2[0] == q[0]);
        }
    }
    assert(!ledger::any_spent(seen2, record)) by {
        if ledger::any_spent(seen2, record) {
            let k = choose|k: Seq<char>|
                seen2.retained[record].dom().contains(k) && #[trigger] ledger::spent(
                    seen2,
                    record,
                    k,
                ) > 0;
            assert(ledger::queue_at(ready.retained, record, k).is_prefix_of(
                ledger::queue_at(seen2.retained, record, k),
            ));
        }
    }
    assert(ready2 == seen2);
    assert forall|k: Seq<char>|
        (#[trigger] ledger::queue_at(ready.retained, record, k)).len() == 0 <==> ledger::queue_at(
            ready2.retained,
            record,
            k,
        ).len() == 0 by {
        assert(ledger::queue_at(ready.retained, record, k).is_prefix_of(
            ledger::queue_at(seen2.retained, record, k),
        ));
    }
    assert forall|k: Seq<char>|
        (#[trigger] ledger::queue_at(ready.retained, record, k)).len() > 0 implies ledger::queue_at(
        ready2.retained,
        record,
        k,
    )[0] == ledger::queue_at(ready.retained, record, k)[0] by {
        assert(ledger::queue_at(ready.retained, record, k).is_prefix_of(
            ledger::queue_at(seen2.retained, record, k),
        ));
    }
    lemma_routed_same(ready, ready2, record, entries);
}

/// Nothing is kept for a session that is not registered and writes nothing.
pub open spec fn plain(m: Ledger, record: RecordView) -> bool {
    &&& !m.roots.dom().contains(record)
    &&& forall|k: Seq<char>| (#[trigger] ledger::queue_at(m.retained, record, k)).len() == 0
    &&& forall|i: int|
        0 <= i < m.ownership.len() ==> !(#[trigger] m.ownership[i]).1.writers.contains(record)
}

/// Of several entries for one file, what is current is under the file's key.
pub(crate) proof fn lemma_current_keys(m: Ledger, record: RecordView, entries: Seq<EntryView>)
    ensures
        forall|k: Seq<char>| #[trigger]
            ledger::current_for(m, record, entries).dom().contains(k) ==> ledger::current_for(
                m,
                record,
                entries,
            )[k].key == k,
        ledger::current_for(m, record, entries).dom().finite(),
    decreases entries.len(),
{
    if entries.len() > 0 {
        lemma_current_keys(m, record, entries.drop_last());
    }
}

/// Any finite selection of files can be listed in the order of their keys.
pub(crate) proof fn lemma_listing_exists(files: Map<Seq<char>, EntryView>) -> (list: Seq<EntryView>)
    requires
        files.dom().finite(),
        forall|k: Seq<char>| #[trigger] files.dom().contains(k) ==> files[k].key == k,
    ensures
        ledger::in_key_order(files, list),
    decreases files.dom().len(),
{
    if files.dom().len() == 0 {
        assert(files.dom() =~= Set::empty());
        Seq::empty()
    } else {
        let order = text::text_order();
        text::lemma_text_order();
        let keys = files.dom().to_seq();
        files.dom().lemma_to_seq_to_set_id();
        let sorted = keys.sort_by(order);
        keys.lemma_sort_by_ensures(order);
        let top = sorted.last();
        sorted.to_multiset_ensures();
        keys.to_multiset_ensures();
        assert(sorted.len() > 0) by {
            let x = files.dom().choose();
            assert(files.dom().contains(x));
            assert(keys.to_set().contains(x));
            assert(keys.contains(x));
            assert(keys.to_multiset().count(x) > 0);
            assert(sorted.contains(x));
        }
        assert(files.dom().contains(top)) by {
            assert(sorted.contains(top));
            assert(keys.contains(top));
            assert(keys.to_set().contains(top));
        }
        let rest = files.remove(top);
        let init = lemma_listing_exists(rest);
        let list = init.push(files[top]);
        assert forall|i: int, j: int| 0 <= i < j < list.len() implies (#[trigger] list[i]).key != (
        #[trigger] list[j]).key && text::text_leq(list[i].key, list[j].key) by {
            if j < init.len() {
                assert(init[i].key != init[j].key);
            } else {
                assert(rest.dom().contains(init[i].key));
                let k = init[i].key;
                assert(files.dom().contains(k));
                assert(keys.to_set().contains(k));
                assert(keys.contains(k));
                assert(keys.to_multiset().count(k) > 0);
                assert(sorted.contains(k));
                let x = choose|x: int| 0 <= x < sorted.len() && sorted[x] == k;
                if x < sorted.len() - 1 {
                    assert(order(sorted[x], sorted[sorted.len() - 1]));
                }
            }
        }
        assert forall|i: int| 0 <= i < list.len() implies files.dom().contains(
            (#[trigger] list[i]).key,
        ) && files[list[i].key] == list[i] by {
            if i < init.len() {
                assert(rest.dom().contains(init[i].key));
            }
        }
        assert forall|k: Seq<char>| #[trigger] files.dom().contains(k) implies exists|i: int|
            0 <= i < list.len() && (#[trigger] list[i]).key == k by {
            if k == top {
                assert(list[init.len() as int].key == k);
            } else {
                assert(rest.dom().contains(k));
                let i = choose|i: int| 0 <= i < init.len() && (#[trigger] init[i]).key == k;
                assert(list[i].key == k);
            }
        }
        list
    }
}

/// A later report supersedes an earlier one: once something is staged anew, a
/// token given out before acknowledges nothing for the record.
pub proof fn law_a_replaced_token_commits_nothing(
    m: Ledger,
    record: RecordView,
    entries: Seq<EntryView>,
    token: u64,
)
    requires
        token <= m.next_token,
        m.next_token < u64::MAX,
    ensures
        ({
            let staged = ledger::stage(m, record, entries);
            &&& !ledger::acknowledges(staged, record, token)
            &&& ledger::commit(staged, record, token) == staged
        }),
{
}

/// An immediate flush leaves nothing to acknowledge.
pub proof fn law_a_flush_leaves_nothing_staged(
    m: Ledger,
    record: RecordView,
    entries: Seq<EntryView>,
    token: u64,
)
    ensures
        !ledger::acknowledges(ledger::flush(m, record, entries), record, token),
{
    let staged = ledger::stage(m, record, entries);
    if let Some(token) = ledger::stage_token(m, record, entries) {
        let told = match ledger::lookup(staged.sessions, record) {
            Some(told) => told,
            None => Map::empty(),
        };
        let mid = Ledger {
            pending: staged.pending.remove(record),
            sessions: staged.sessions.insert(
                record,
                ledger::apply_updates(told, staged.pending[record].updates),
            ),
            ..staged
        };
        soundness::lemma_commit_named(mid, record, staged.pending[record].snapshots);
    }
}

/// Records deduplicate independently: what one is told does not change what
/// another was told, nor the report that is staged for it.
pub proof fn law_records_are_independent(
    m: Ledger,
    record: RecordView,
    entries: Seq<EntryView>,
    other: RecordView,
)
    requires
        other != record,
    ensures
        ({
            let after = ledger::flush(m, record, entries);
            &&& ledger::lookup(after.sessions, other) == ledger::lookup(m.sessions, other)
            &&& ledger::lookup(after.pending, other) == ledger::lookup(m.pending, other)
        }),
{
    soundness::lemma_prepared(m, record, entries);
    let staged = ledger::stage(m, record, entries);
    if let Some(token) = ledger::stage_token(m, record, entries) {
        let told = match ledger::lookup(staged.sessions, record) {
            Some(told) => told,
            None => Map::empty(),
        };
        let mid = Ledger {
            pending: staged.pending.remove(record),
            sessions: staged.sessions.insert(
                record,
                ledger::apply_updates(told, staged.pending[record].updates),
            ),
            ..staged
        };
        soundness::lemma_commit_named(mid, record, staged.pending[record].snapshots);
    }
}

/// Staging does not move a record: what it was told stays what it was, and a new
/// record starts from the baseline.
pub proof fn law_staging_moves_no_record(m: Ledger, record: RecordView, entries: Seq<EntryView>)
    ensures
        ledger::stage(m, record, entries).sessions == ledger::seed(m, record).sessions,
{
    soundness::lemma_prepared(m, record, entries);
}

/// Of an ended record nothing is left: no history, no staged report, no root, no
/// kept report and no claim. It starts over from the baseline.
pub proof fn law_an_ended_record_starts_over(m: Ledger, record: RecordView, token: u64)
    requires
        ledger::sound(m),
    ensures
        ({
            let after = ledger::end_session(m, record);
            &&& !ledger::acknowledges(after, record, token)
            &&& !after.sessions.dom().contains(record)
            &&& !after.roots.dom().contains(record)
            &&& !after.retained.dom().contains(record)
            &&& !after.lifetime.records.dom().contains(record)
            &&& plain(after, record)
            &&& ledger::seed(after, record).sessions[record] == match m.baseline {
                Some(baseline) => baseline,
                None => Map::empty(),
            }
        }),
{
    let gone = Set::<RecordView>::empty().insert(record);
    let after = ledger::end_session(m, record);
    let thinned = m.ownership.map_values(
        |row: ((Seq<char>, Seq<char>), ledger::OwnerView)|
            (
                row.0,
                ledger::OwnerView { writers: row.1.writers.difference(gone), ..row.1 },
            ),
    );
    let keep = |row: ((Seq<char>, Seq<char>), ledger::OwnerView)|
        row.1.writers != Set::<RecordView>::empty();
    table::lemma_same_keys(m.ownership, thinned);
    soundness::lemma_filter_distinct(thinned, keep);
    assert forall|i: int| 0 <= i < after.ownership.len() implies !(
    #[trigger] after.ownership[i]).1.writers.contains(record) by {
        assert(thinned.contains(after.ownership[i]));
        let j = choose|j: int| 0 <= j < thinned.len() && thinned[j] == after.ownership[i];
        assert(thinned[j].1.writers == m.ownership[j].1.writers.difference(gone));
    }
}

/// What the baseline already had is not news to a record that is not registered
/// and starts after it.
pub proof fn law_the_baseline_is_not_news(m: Ledger, record: RecordView, entries: Seq<EntryView>)
    requires
        !m.roots.dom().contains(record),
        !m.sessions.dom().contains(record),
        m.baseline matches Some(baseline) && forall|i: int|
            0 <= i < entries.len() ==> (#[trigger] entries[i]).hash() == ledger::lookup(
                baseline,
                entries[i].key,
            ),
    ensures
        ledger::composed(m, record, entries) == ledger::diff_start(m.config),
{
    soundness::lemma_prepared(m, record, entries);
    lemma_nothing_new(m.config, m.baseline->0, entries);
}

/// The first root a caller is seen with is the last to take over what it owned:
/// registering it again moves nothing.
pub proof fn law_only_the_first_root_adopts(m: Ledger, first: CallerView, later: CallerView)
    requires
        first.root is Some,
        later.record == first.record,
    ensures
        ledger::provisional(ledger::register(m, first), later) is None,
        ledger::register(ledger::register(m, first), later).ownership == ledger::register(
            m,
            first,
        ).ownership,
{
}

/// A record that a connection protects does not expire, however late it is.
pub proof fn law_a_protected_record_does_not_expire(
    l: ledger::LifetimeView,
    now: u64,
    record: RecordView,
    connection: u64,
)
    requires
        l.records.dom().contains(record),
        l.connections.dom().contains(connection),
        ledger::guards(l.connections[connection], record, l.records[record].root),
    ensures
        !ledger::expired_by(l, now).contains(record),
        ledger::expire_life(l, now).records.dom().contains(record),
{
    assert(ledger::protected(l.connections, record, l.records[record].root));
}

/// Losing a connection is not losing a session: a record that has just lost its
/// protection is there until the grace has passed, and gone after it.
pub proof fn law_a_record_outlives_its_connection_by_the_grace(
    l: ledger::LifetimeView,
    connection: u64,
    closed: u64,
    now: u64,
    record: RecordView,
)
    requires
        l.records.dom().contains(record),
        !l.records[record].ended,
        ledger::protected(l.connections, record, l.records[record].root),
        !ledger::protected(
            l.connections.remove(connection),
            record,
            l.records[record].root,
        ),
    ensures
        ledger::expired_by(ledger::close_life(l, connection, closed), now).contains(record) <==> now
            >= closed + l.grace_ms * 1_000_000,
{
}

} // verus!
