//! Nothing is told twice, and nothing that waits is lost.

use crate::config::{DiagnosticsConfig, SeverityFloor};
use crate::delivery_laws;
use crate::ledger;
use crate::ledger::{ChangedView, DiffView, EntryView, Record, ReportView};
use vstd::prelude::*;

verus! {

/// No file stands twice in `list`.
pub open spec fn distinct_keys(list: Seq<EntryView>) -> bool {
    forall|i: int, j: int|
        0 <= i < j < list.len() ==> (#[trigger] list[i]).key != (#[trigger] list[j]).key
}

/// Whether a file shows something else than what is recorded of it.
pub open spec fn waits(record: Record, e: EntryView) -> bool {
    e.hash() != ledger::lookup(record, e.key)
}

/// Whether a file is muted: where something was recorded of it, that is
/// forgotten without a word.
pub open spec fn silent(e: EntryView) -> bool {
    e.hash() is None && e.floor == SeverityFloor::Off
}

/// The files of `list` that wait.
pub open spec fn waiting(record: Record, list: Seq<EntryView>) -> Seq<EntryView> {
    list.filter(|e: EntryView| waits(record, e))
}

/// How many of `changed` are of file `key`.
pub open spec fn changed_count(changed: Seq<ChangedView>, key: Seq<char>) -> nat
    decreases changed.len(),
{
    if changed.len() == 0 {
        0
    } else {
        changed_count(changed.drop_last(), key) + if changed.last().key == key {
            1nat
        } else {
            0nat
        }
    }
}

/// How many of `cleared` are file `key`.
pub open spec fn cleared_count(cleared: Seq<Seq<char>>, key: Seq<char>) -> nat
    decreases cleared.len(),
{
    if cleared.len() == 0 {
        0
    } else {
        cleared_count(cleared.drop_last(), key) + if cleared.last() == key {
            1nat
        } else {
            0nat
        }
    }
}

/// How many times a report names file `key`, as changed or as cleared.
pub open spec fn mentions(report: ReportView, key: Seq<char>) -> nat {
    changed_count(report.changed, key) + cleared_count(report.cleared, key)
}

/// Whether `updates` change what is recorded of file `key`.
pub open spec fn updated(updates: Seq<(Seq<char>, Option<u64>)>, key: Seq<char>) -> bool {
    exists|j: int| 0 <= j < updates.len() && (#[trigger] updates[j]).0 == key
}

/// What acknowledging a pass over `list` leaves recorded.
pub open spec fn passed(config: DiagnosticsConfig, record: Record, list: Seq<EntryView>) -> Record {
    ledger::apply_updates(record, ledger::diff_all(config, record, list).updates)
}

/// What one more file does to a pass.
proof fn lemma_step(config: DiagnosticsConfig, record: Record, s: DiffView, e: EntryView)
    requires
        s.budget matches Some(left) ==> 0 <= left <= config.max_total,
        s.budget is None <==> config.max_total == 0,
        s.updates.len() == 0 ==> s == ledger::diff_start(config),
    ensures
        ({
            let t = ledger::diff_step(config, record, s, e);
            let more = t.updates != s.updates;
            &&& more ==> t.updates.len() > 0 && t.updates.drop_last() == s.updates
                && t.updates.last() == (e.key, e.hash()) && t.report.omitted == s.report.omitted
                && waits(record, e)
            &&& !more ==> t.report.changed == s.report.changed && t.report.cleared
                == s.report.cleared && t.report.omitted == s.report.omitted + if waits(record, e) {
                1int
            } else {
                0int
            }
            &&& waits(record, e) && s.updates.len() == 0 ==> more
            &&& forall|k: Seq<char>| #[trigger]
                mentions(t.report, k) == mentions(s.report, k) + if more && !silent(e) && k
                    == e.key {
                    1nat
                } else {
                    0nat
                }
        }),
{
    let t = ledger::diff_step(config, record, s, e);
    if waits(record, e) {
        if t.updates.len() > s.updates.len() {
            assert(t.updates.drop_last() =~= s.updates);
        }
        if t.report.changed.len() > s.report.changed.len() {
            assert(t.report.changed.drop_last() =~= s.report.changed);
        }
        if t.report.cleared.len() > s.report.cleared.len() {
            assert(t.report.cleared.drop_last() =~= s.report.cleared);
        }
    }
}

/// What a pass over distinct files does: a file that waits is told and recorded,
/// or left as it was; one that does not wait is passed over; and what is left is
/// what the report counts as deferred.
pub(crate) proof fn lemma_pass(config: DiagnosticsConfig, record: Record, list: Seq<EntryView>)
    requires
        distinct_keys(list),
    ensures
        ({
            let d = ledger::diff_all(config, record, list);
            let after = passed(config, record, list);
            &&& forall|i: int|
                0 <= i < list.len() && waits(after, #[trigger] list[i]) ==> waits(record, list[i])
                    && ledger::lookup(after, list[i].key) == ledger::lookup(record, list[i].key)
            &&& forall|i: int|
                0 <= i < list.len() ==> updated(d.updates, (#[trigger] list[i]).key) == (waits(
                    record,
                    list[i],
                ) && !waits(after, list[i]))
            &&& forall|i: int|
                0 <= i < list.len() ==> mentions(d.report, (#[trigger] list[i]).key) == if waits(
                    record,
                    list[i],
                ) && !waits(after, list[i]) && !silent(list[i]) {
                    1nat
                } else {
                    0nat
                }
            &&& forall|k: Seq<char>|
                !#[trigger] delivery_laws::listed(list, k) ==> ledger::lookup(after, k)
                    == ledger::lookup(record, k) && mentions(d.report, k) == 0 && !updated(
                    d.updates,
                    k,
                )
            &&& d.report.omitted == waiting(after, list).len()
            &&& d.updates.len() == 0 ==> d == ledger::diff_start(config) && forall|i: int|
                0 <= i < list.len() ==> !waits(record, #[trigger] list[i])
        }),
    decreases list.len(),
{
    if list.len() == 0 {
        reveal(Seq::filter);
    } else {
        let init = list.drop_last();
        let e = list.last();
        assert forall|i: int, j: int| 0 <= i < j < init.len() implies (#[trigger] init[i]).key != (
        #[trigger] init[j]).key by {
            assert(list[i].key != list[j].key);
        }
        lemma_pass(config, record, init);
        delivery_laws::law_a_report_stays_within_its_caps(config, record, init);
        let s = ledger::diff_all(config, record, init);
        let t = ledger::diff_all(config, record, list);
        let mid = passed(config, record, init);
        let after = passed(config, record, list);
        assert(s.budget matches Some(left) ==> left <= config.max_total) by {
            lemma_cost(s.report.changed);
        }
        lemma_step(config, record, s, e);
        assert forall|i: int| 0 <= i < init.len() implies (#[trigger] init[i]).key != e.key by {
            assert(list[i].key != list[list.len() - 1].key);
        }
        assert(!delivery_laws::listed(init, e.key));
        assert(ledger::lookup(mid, e.key) == ledger::lookup(record, e.key));
        let more = t.updates != s.updates;
        assert(forall|k: Seq<char>|
            k != e.key ==> #[trigger] ledger::lookup(after, k) == ledger::lookup(mid, k));
        assert(ledger::lookup(after, e.key) == if more {
            e.hash()
        } else {
            ledger::lookup(record, e.key)
        });
        assert forall|k: Seq<char>| #[trigger] updated(t.updates, k) == (updated(s.updates, k) || (
        more && k == e.key)) by {
            if updated(s.updates, k) {
                let j = choose|j: int| 0 <= j < s.updates.len() && (#[trigger] s.updates[j]).0 == k;
                assert(t.updates[j] == s.updates[j]);
            }
            if more && k == e.key {
                assert(t.updates[t.updates.len() - 1].0 == k);
            }
            if updated(t.updates, k) && !(more && k == e.key) {
                let j = choose|j: int| 0 <= j < t.updates.len() && (#[trigger] t.updates[j]).0 == k;
                assert(s.updates[j] == t.updates[j]);
            }
        }
        assert forall|i: int| 0 <= i < list.len() && waits(after, #[trigger] list[i]) implies waits(
            record,
            list[i],
        ) && ledger::lookup(after, list[i].key) == ledger::lookup(record, list[i].key) by {
            if i < init.len() {
                assert(init[i] == list[i]);
            }
        }
        assert forall|i: int| 0 <= i < list.len() implies updated(
            t.updates,
            (#[trigger] list[i]).key,
        ) == (waits(record, list[i]) && !waits(after, list[i])) by {
            if i < init.len() {
                assert(init[i] == list[i]);
            }
        }
        assert forall|i: int| 0 <= i < list.len() implies mentions(
            t.report,
            (#[trigger] list[i]).key,
        ) == if waits(record, list[i]) && !waits(after, list[i]) && !silent(list[i]) {
            1nat
        } else {
            0nat
        } by {
            if i < init.len() {
                assert(init[i] == list[i]);
            }
        }
        assert forall|k: Seq<char>| !#[trigger] delivery_laws::listed(list, k) implies ledger::lookup(
            after,
            k,
        ) == ledger::lookup(record, k) && mentions(t.report, k) == 0 && !updated(t.updates, k) by {
            assert(list[list.len() - 1] == e);
            assert(!delivery_laws::listed(init, k)) by {
                if delivery_laws::listed(init, k) {
                    let i = choose|i: int| 0 <= i < init.len() && (#[trigger] init[i]).key == k;
                    assert(list[i].key == k);
                }
            }
        }
        lemma_waiting_same(mid, after, init);
        assert(waiting(after, list).len() == waiting(after, init).len() + if waits(after, e) {
            1nat
        } else {
            0nat
        }) by {
            reveal(Seq::filter);
        }
        if t.updates.len() == 0 {
            assert(s.updates == t.updates);
            assert forall|i: int| 0 <= i < list.len() implies !waits(
                record,
                #[trigger] list[i],
            ) by {
                if i < init.len() {
                    assert(init[i] == list[i]);
                }
            }
        }
    }
}

proof fn lemma_cost(changed: Seq<ChangedView>)
    ensures
        delivery_laws::cost(changed) >= 0,
    decreases changed.len(),
{
    if changed.len() > 0 {
        lemma_cost(changed.drop_last());
    }
}

/// Which files wait rests on what is recorded of them alone.
proof fn lemma_waiting_same(a: Record, b: Record, list: Seq<EntryView>)
    requires
        forall|i: int|
            0 <= i < list.len() ==> ledger::lookup(a, (#[trigger] list[i]).key) == ledger::lookup(
                b,
                list[i].key,
            ),
    ensures
        waiting(a, list) == waiting(b, list),
    decreases list.len(),
{
    reveal(Seq::filter);
    if list.len() > 0 {
        let init = list.drop_last();
        assert forall|i: int| 0 <= i < init.len() implies ledger::lookup(
            a,
            (#[trigger] init[i]).key,
        ) == ledger::lookup(b, init[i].key) by {
            assert(init[i] == list[i]);
        }
        lemma_waiting_same(a, b, init);
        assert(list.last() == list[list.len() - 1]);
    }
}

/// A file is told once and not again, whatever the budget: once a report over
/// `list` that defers nothing has been acknowledged, the same files report
/// nothing.
pub proof fn law_reported_once(config: DiagnosticsConfig, record: Record, list: Seq<EntryView>)
    requires
        distinct_keys(list),
        ledger::diff_all(config, record, list).report.omitted == 0,
    ensures
        ledger::diff_all(config, passed(config, record, list), list) == ledger::diff_start(config),
{
    let after = passed(config, record, list);
    lemma_pass(config, record, list);
    assert forall|i: int| 0 <= i < list.len() implies (#[trigger] list[i]).hash()
        == ledger::lookup(after, list[i].key) by {
        lemma_waiting_has(after, list, i);
    }
    delivery_laws::lemma_nothing_new(config, after, list);
}

pub(crate) proof fn lemma_waiting_has(record: Record, list: Seq<EntryView>, i: int)
    requires
        0 <= i < list.len(),
    ensures
        waits(record, list[i]) ==> waiting(record, list).len() > 0,
        waiting(record, list).len() <= list.len(),
    decreases list.len(),
{
    reveal(Seq::filter);
    if i < list.len() - 1 {
        lemma_waiting_has(record, list.drop_last(), i);
        assert(list.drop_last()[i] == list[i]);
    } else if list.len() > 1 {
        lemma_waiting_has(record, list.drop_last(), 0);
    } else {
        assert(list.drop_last().len() == 0);
        assert(waiting(record, list.drop_last()).len() == 0);
    }
}

/// What a report names and what it defers, file by file: a file that waits is
/// named once, or forgotten without a word where it is muted, and what is then
/// recorded of it is what it shows; or it is deferred, and nothing is recorded
/// anew. The report counts the deferred files.
pub proof fn law_a_file_is_told_or_deferred(
    config: DiagnosticsConfig,
    record: Record,
    list: Seq<EntryView>,
    i: int,
)
    requires
        distinct_keys(list),
        0 <= i < list.len(),
    ensures
        ({
            let d = ledger::diff_all(config, record, list);
            let after = passed(config, record, list);
            let e = list[i];
            &&& !waits(record, e) ==> !waits(after, e) && mentions(d.report, e.key) == 0
            &&& waits(record, e) && waits(after, e) ==> mentions(d.report, e.key) == 0
                && ledger::lookup(after, e.key) == ledger::lookup(record, e.key)
            &&& waits(record, e) && !waits(after, e) ==> mentions(d.report, e.key) == if silent(e) {
                0nat
            } else {
                1nat
            }
            &&& d.report.omitted == waiting(after, list).len()
        }),
{
    lemma_pass(config, record, list);
    assert(waits(passed(config, record, list), list[i]) ==> waits(record, list[i]));
}

/// A file that a report named is not named by the next one over the same files,
/// whatever the budget.
pub proof fn law_a_named_file_is_not_named_again(
    config: DiagnosticsConfig,
    record: Record,
    list: Seq<EntryView>,
    key: Seq<char>,
)
    requires
        distinct_keys(list),
        mentions(ledger::diff_all(config, record, list).report, key) > 0,
    ensures
        mentions(
            ledger::diff_all(config, passed(config, record, list), list).report,
            key,
        ) == 0,
{
    lemma_pass(config, record, list);
    lemma_pass(config, passed(config, record, list), list);
    assert(delivery_laws::listed(list, key));
    let i = choose|i: int| 0 <= i < list.len() && (#[trigger] list[i]).key == key;
    assert(mentions(ledger::diff_all(config, record, list).report, list[i].key) > 0);
}

/// What is recorded after `n` passes over `list`, each acknowledged.
pub open spec fn told_after(
    config: DiagnosticsConfig,
    record: Record,
    list: Seq<EntryView>,
    n: nat,
) -> Record
    decreases n,
{
    if n == 0 {
        record
    } else {
        passed(config, told_after(config, record, list, (n - 1) as nat), list)
    }
}

/// How many times the first `n` passes over `list` name file `key`.
pub open spec fn said(
    config: DiagnosticsConfig,
    record: Record,
    list: Seq<EntryView>,
    n: nat,
    key: Seq<char>,
) -> nat
    decreases n,
{
    if n == 0 {
        0
    } else {
        let before = (n - 1) as nat;
        said(config, record, list, before, key) + mentions(
            ledger::diff_all(config, told_after(config, record, list, before), list).report,
            key,
        )
    }
}

/// Fewer files wait where some that waited does no longer and none is new.
proof fn lemma_fewer_wait(a: Record, b: Record, list: Seq<EntryView>)
    requires
        forall|i: int| 0 <= i < list.len() && waits(b, #[trigger] list[i]) ==> waits(a, list[i]),
    ensures
        waiting(b, list).len() <= waiting(a, list).len(),
        (exists|i: int|
            0 <= i < list.len() && waits(a, #[trigger] list[i]) && !waits(b, list[i]))
            ==> waiting(b, list).len() < waiting(a, list).len(),
    decreases list.len(),
{
    reveal(Seq::filter);
    if list.len() > 0 {
        let init = list.drop_last();
        assert forall|i: int| 0 <= i < init.len() && waits(b, #[trigger] init[i]) implies waits(
            a,
            init[i],
        ) by {
            assert(init[i] == list[i]);
        }
        lemma_fewer_wait(a, b, init);
        assert(list.last() == list[list.len() - 1]);
        if exists|i: int|
            0 <= i < list.len() && waits(a, #[trigger] list[i]) && !waits(b, list[i]) {
            let i = choose|i: int|
                0 <= i < list.len() && waits(a, #[trigger] list[i]) && !waits(b, list[i]);
            if i < init.len() {
                assert(init[i] == list[i]);
            }
        }
    }
}

/// A pass leaves fewer files waiting, unless none did.
proof fn lemma_progress(config: DiagnosticsConfig, record: Record, list: Seq<EntryView>)
    requires
        distinct_keys(list),
    ensures
        waiting(passed(config, record, list), list).len() <= waiting(record, list).len(),
        waiting(record, list).len() > 0 ==> waiting(passed(config, record, list), list).len()
            < waiting(record, list).len(),
{
    let d = ledger::diff_all(config, record, list);
    let after = passed(config, record, list);
    lemma_pass(config, record, list);
    lemma_fewer_wait(record, after, list);
    if waiting(record, list).len() > 0 && d.updates.len() == 0 {
        lemma_none_waits(record, list);
    }
    if d.updates.len() > 0 {
        let k = d.updates[0].0;
        assert(updated(d.updates, k));
        assert(delivery_laws::listed(list, k));
        let i = choose|i: int| 0 <= i < list.len() && (#[trigger] list[i]).key == k;
        assert(waits(record, list[i]) && !waits(after, list[i]));
    }
}

pub(crate) proof fn lemma_none_waits(record: Record, list: Seq<EntryView>)
    requires
        forall|i: int| 0 <= i < list.len() ==> !waits(record, #[trigger] list[i]),
    ensures
        waiting(record, list).len() == 0,
    decreases list.len(),
{
    reveal(Seq::filter);
    if list.len() > 0 {
        let init = list.drop_last();
        assert forall|i: int| 0 <= i < init.len() implies !waits(record, #[trigger] init[i]) by {
            assert(init[i] == list[i]);
        }
        lemma_none_waits(record, init);
        assert(list.last() == list[list.len() - 1]);
    }
}

/// Nothing that waits is lost, and nothing is repeated, whatever the budget:
/// over passes that are each acknowledged, a file that waits is named at most
/// once, and exactly once by the time it waits no longer; each pass leaves fewer
/// files waiting; and after as many passes as there are files the next ones say
/// nothing.
pub proof fn law_every_file_is_told_exactly_once(
    config: DiagnosticsConfig,
    record: Record,
    list: Seq<EntryView>,
    n: nat,
)
    requires
        distinct_keys(list),
    ensures
        ({
            let after = told_after(config, record, list, n);
            &&& forall|i: int|
                0 <= i < list.len() ==> said(config, record, list, n, (#[trigger] list[i]).key)
                    == if waits(record, list[i]) && !waits(after, list[i]) && !silent(list[i]) {
                    1nat
                } else {
                    0nat
                }
            &&& forall|i: int|
                0 <= i < list.len() && waits(after, #[trigger] list[i]) ==> waits(record, list[i])
            &&& forall|k: Seq<char>|
                !#[trigger] delivery_laws::listed(list, k) ==> said(config, record, list, n, k) == 0
            &&& waiting(after, list).len() == 0 || waiting(after, list).len() + n <= waiting(
                record,
                list,
            ).len()
            &&& n >= list.len() ==> ledger::diff_all(config, after, list) == ledger::diff_start(
                config,
            ) && forall|i: int| 0 <= i < list.len() ==> !waits(after, #[trigger] list[i])
        }),
    decreases n,
{
    let after = told_after(config, record, list, n);
    if n > 0 {
        let fewer = (n - 1) as nat;
        law_every_file_is_told_exactly_once(config, record, list, fewer);
        let before = told_after(config, record, list, fewer);
        lemma_pass(config, before, list);
        lemma_progress(config, before, list);
        assert forall|i: int| 0 <= i < list.len() && waits(after, #[trigger] list[i]) implies waits(
            record,
            list[i],
        ) by {
            assert(waits(before, list[i]));
        }
        assert forall|i: int| 0 <= i < list.len() implies said(
            config,
            record,
            list,
            n,
            (#[trigger] list[i]).key,
        ) == if waits(record, list[i]) && !waits(after, list[i]) && !silent(list[i]) {
            1nat
        } else {
            0nat
        } by {
            let d = ledger::diff_all(config, before, list);
            assert(said(config, record, list, n, list[i].key) == said(
                config,
                record,
                list,
                fewer,
                list[i].key,
            ) + mentions(d.report, list[i].key));
            assert(waits(after, list[i]) ==> waits(before, list[i]));
            assert(waits(before, list[i]) ==> waits(record, list[i]));
        }
    }
    if n >= list.len() {
        if list.len() > 0 {
            lemma_waiting_has(record, list, 0);
        }
        assert forall|i: int| 0 <= i < list.len() implies !waits(after, #[trigger] list[i]) by {
            lemma_waiting_has(after, list, i);
        }
        delivery_laws::lemma_nothing_new(config, after, list);
    }
}

/// A pass rests on the files that wait alone.
pub(crate) proof fn lemma_diff_waiting(
    config: DiagnosticsConfig,
    record: Record,
    list: Seq<EntryView>,
)
    ensures
        ledger::diff_all(config, record, list) == ledger::diff_all(
            config,
            record,
            waiting(record, list),
        ),
    decreases list.len(),
{
    reveal(Seq::filter);
    if list.len() > 0 {
        let init = list.drop_last();
        lemma_diff_waiting(config, record, init);
        let w = waiting(record, list);
        if waits(record, list.last()) {
            assert(w.drop_last() =~= waiting(record, init));
            assert(w.last() == list.last());
        }
    }
}

} // verus!
