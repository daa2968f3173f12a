//! What a report over a list of files says of each of them.

use crate::config::{DiagnosticsConfig, SeverityFloor};
use crate::diagnostics::DiagnosticView;
use crate::hash_laws;
use crate::ledger;
use crate::ledger::{ChangedView, EntryView, Record};
use vstd::prelude::*;

verus! {

/// How many diagnostics of a file may be delivered at all.
pub open spec fn allowed(config: DiagnosticsConfig, shown: nat) -> nat {
    if config.max_per_file == 0 || shown <= config.max_per_file {
        shown
    } else {
        config.max_per_file as nat
    }
}

/// Whether a changed file tells of the entry `e`: one that shows something else
/// than was recorded of it. It has the first of what `e` shows, as many as one
/// file may have, or as the whole report may have where the file is its first;
/// and it counts the rest.
pub open spec fn tells_of(
    config: DiagnosticsConfig,
    record: Record,
    e: EntryView,
    file: ChangedView,
    first: bool,
) -> bool {
    &&& file.key == e.key
    &&& e.shown().len() > 0
    &&& e.hash() != ledger::lookup(record, e.key)
    &&& file.diagnostics.is_prefix_of(e.shown())
    &&& file.omitted == e.shown().len() - file.diagnostics.len()
    &&& {
        ||| file.diagnostics.len() == allowed(config, e.shown().len())
        ||| first && file.diagnostics.len() == config.max_total && config.max_total < allowed(
            config,
            e.shown().len(),
        )
    }
}

/// Where each thing that a report says comes from: the changed files and the
/// cleared ones, each in the order of the entries they tell of.
pub open spec fn accounts_for(
    config: DiagnosticsConfig,
    record: Record,
    entries: Seq<EntryView>,
    changed_at: Seq<int>,
    cleared_at: Seq<int>,
) -> bool {
    let report = ledger::diff_all(config, record, entries).report;
    &&& changed_at.len() == report.changed.len()
    &&& cleared_at.len() == report.cleared.len()
    &&& forall|i: int|
        0 <= i < changed_at.len() ==> 0 <= #[trigger] changed_at[i] < entries.len() && tells_of(
            config,
            record,
            entries[changed_at[i]],
            report.changed[i],
            i == 0,
        )
    &&& forall|i: int|
        0 <= i < cleared_at.len() ==> 0 <= #[trigger] cleared_at[i] < entries.len() && clears(
            record,
            entries[cleared_at[i]],
            report.cleared[i],
        )
    &&& forall|i: int, j: int|
        0 <= i < j < changed_at.len() ==> #[trigger] changed_at[i] < #[trigger] changed_at[j]
    &&& forall|i: int, j: int|
        0 <= i < j < cleared_at.len() ==> #[trigger] cleared_at[i] < #[trigger] cleared_at[j]
}

/// Whether a cleared file tells of the entry `e`: something is on record of it,
/// and it shows nothing any more without being muted.
pub open spec fn clears(record: Record, e: EntryView, key: Seq<char>) -> bool {
    &&& key == e.key
    &&& e.shown().len() == 0
    &&& e.floor != SeverityFloor::Off
    &&& record.dom().contains(e.key)
}

/// Everything that a report says is true of one of the entries: a changed file
/// shows something new, of which it delivers as much as the caps allow, and a
/// cleared file shows nothing any more. Both stand in the order of the entries.
pub proof fn law_a_report_tells_the_truth(
    config: DiagnosticsConfig,
    record: Record,
    entries: Seq<EntryView>,
)
    ensures
        exists|changed_at: Seq<int>, cleared_at: Seq<int>| #[trigger]
            accounts_for(config, record, entries, changed_at, cleared_at),
{
    let at = lemma_accounts(config, record, entries);
}

/// Something was said, or forgotten, exactly where some of the budget is used.
proof fn lemma_unspent(config: DiagnosticsConfig, record: Record, entries: Seq<EntryView>)
    ensures
        ({
            let d = ledger::diff_all(config, record, entries);
            &&& config.max_total > 0 <==> d.budget is Some
            &&& d.budget matches Some(left) ==> 0 <= left <= config.max_total
            &&& d.budget matches Some(left) ==> (left == config.max_total
                ==> d.report.changed.len() == 0 && d.report.cleared.len() == 0)
        }),
    decreases entries.len(),
{
    if entries.len() > 0 {
        lemma_unspent(config, record, entries.drop_last());
        let e = entries.last();
        if e.hash() is Some {
            assert(e.shown().len() > 0);
        }
    }
}

proof fn lemma_accounts(config: DiagnosticsConfig, record: Record, entries: Seq<EntryView>) -> (at: (
    Seq<int>,
    Seq<int>,
))
    ensures
        accounts_for(config, record, entries, at.0, at.1),
    decreases entries.len(),
{
    if entries.len() == 0 {
        (Seq::empty(), Seq::empty())
    } else {
        let less = entries.drop_last();
        let n = entries.len() - 1;
        let e = entries.last();
        let (changed_at, cleared_at) = lemma_accounts(config, record, less);
        lemma_unspent(config, record, less);
        let before = ledger::diff_all(config, record, less);
        let after = ledger::diff_all(config, record, entries);
        assert(forall|i: int| 0 <= i < less.len() ==> less[i] == entries[i]);
        if after.report.changed.len() > before.report.changed.len() {
            let at = changed_at.push(n);
            let file = after.report.changed.last();
            assert(after.report.changed == before.report.changed.push(file));
            assert(tells_of(config, record, e, file, before.report.changed.len() == 0));
            assert forall|i: int| 0 <= i < at.len() implies 0 <= #[trigger] at[i] < entries.len()
                && tells_of(config, record, entries[at[i]], after.report.changed[i], i == 0) by {
                if i < changed_at.len() {
                    assert(at[i] == changed_at[i]);
                }
            }
            assert forall|i: int| 0 <= i < cleared_at.len() implies 0 <= #[trigger] cleared_at[i]
                < entries.len() && clears(
                record,
                entries[cleared_at[i]],
                after.report.cleared[i],
            ) by {
                assert(clears(record, less[cleared_at[i]], before.report.cleared[i]));
            }
            assert(accounts_for(config, record, entries, at, cleared_at));
            (at, cleared_at)
        } else if after.report.cleared.len() > before.report.cleared.len() {
            let at = cleared_at.push(n);
            assert(clears(record, e, after.report.cleared.last()));
            assert forall|i: int| 0 <= i < at.len() implies 0 <= #[trigger] at[i] < entries.len()
                && clears(record, entries[at[i]], after.report.cleared[i]) by {
                if i < cleared_at.len() {
                    assert(at[i] == cleared_at[i]);
                }
            }
            assert forall|i: int| 0 <= i < changed_at.len() implies 0 <= #[trigger] changed_at[i]
                < entries.len() && tells_of(
                config,
                record,
                entries[changed_at[i]],
                after.report.changed[i],
                i == 0,
            ) by {
                assert(tells_of(
                    config,
                    record,
                    less[changed_at[i]],
                    before.report.changed[i],
                    i == 0,
                ));
            }
            assert(accounts_for(config, record, entries, changed_at, at));
            (changed_at, at)
        } else {
            assert(after.report.changed == before.report.changed);
            assert(after.report.cleared == before.report.cleared);
            assert forall|i: int| 0 <= i < changed_at.len() implies 0 <= #[trigger] changed_at[i]
                < entries.len() && tells_of(
                config,
                record,
                entries[changed_at[i]],
                after.report.changed[i],
                i == 0,
            ) by {
                assert(tells_of(
                    config,
                    record,
                    less[changed_at[i]],
                    before.report.changed[i],
                    i == 0,
                ));
            }
            assert forall|i: int| 0 <= i < cleared_at.len() implies 0 <= #[trigger] cleared_at[i]
                < entries.len() && clears(
                record,
                entries[cleared_at[i]],
                after.report.cleared[i],
            ) by {
                assert(clears(record, less[cleared_at[i]], before.report.cleared[i]));
            }
            assert(accounts_for(config, record, entries, changed_at, cleared_at));
            (changed_at, cleared_at)
        }
    }
}

/// What one entry takes of a report's total.
pub open spec fn price(config: DiagnosticsConfig, record: Record, e: EntryView) -> nat {
    if e.hash() == ledger::lookup(record, e.key) {
        0
    } else if e.shown().len() > 0 {
        allowed(config, e.shown().len())
    } else if e.floor == SeverityFloor::Off {
        0
    } else {
        1
    }
}

/// What a list of entries takes of a report's total.
pub open spec fn total_price(
    config: DiagnosticsConfig,
    record: Record,
    entries: Seq<EntryView>,
) -> nat
    decreases entries.len(),
{
    if entries.len() == 0 {
        0
    } else {
        total_price(config, record, entries.drop_last()) + price(config, record, entries.last())
    }
}

/// Nothing is deferred where there is no limit on the total, or where everything
/// fits into it.
pub proof fn law_nothing_is_deferred_that_fits(
    config: DiagnosticsConfig,
    record: Record,
    entries: Seq<EntryView>,
)
    requires
        config.max_total == 0 || total_price(config, record, entries) <= config.max_total,
    ensures
        ledger::diff_all(config, record, entries).report.omitted == 0,
{
    lemma_fits(config, record, entries);
}

proof fn lemma_fits(config: DiagnosticsConfig, record: Record, entries: Seq<EntryView>)
    requires
        config.max_total == 0 || total_price(config, record, entries) <= config.max_total,
    ensures
        ledger::diff_all(config, record, entries).report.omitted == 0,
        config.max_total == 0 ==> ledger::diff_all(config, record, entries).budget is None,
        config.max_total > 0 ==> ledger::diff_all(config, record, entries).budget == Some(
            config.max_total - total_price(config, record, entries),
        ),
    decreases entries.len(),
{
    if entries.len() > 0 {
        lemma_fits(config, record, entries.drop_last());
        let e = entries.last();
        assert(e.hash() is Some <==> e.shown().len() > 0);
    }
}

/// Every file of a report that changed shows something, and a file shows
/// something exactly where one of its diagnostics passes its floor.
pub proof fn law_an_entry_shows_what_passes(e: EntryView)
    ensures
        e.hash() is Some <==> e.shown().len() > 0,
        e.shown().len() > 0 <==> exists|i: int|
            0 <= i < e.diagnostics.len() && e.floor.passes((#[trigger] e.diagnostics[i]).severity),
{
    hash_laws::law_a_hash_means_something_shows(e.diagnostics, e.floor);
}

/// What a record holds of a file after its updates is what the last of them
/// says, and nothing else of it has changed.
pub proof fn law_the_last_update_counts(
    record: Record,
    updates: Seq<(Seq<char>, Option<u64>)>,
    key: Seq<char>,
    value: Option<u64>,
    other: Seq<char>,
)
    ensures
        ledger::lookup(ledger::apply_updates(record, updates.push((key, value))), key) == value,
        other != key ==> ledger::lookup(
            ledger::apply_updates(record, updates.push((key, value))),
            other,
        ) == ledger::lookup(ledger::apply_updates(record, updates), other),
        ledger::apply_updates(record, Seq::empty()) == record,
{
    assert(updates.push((key, value)).drop_last() =~= updates);
}

/// A cap on a file keeps its first diagnostics and leaves out only what is over
/// it; without a cap nothing is left out.
pub proof fn law_a_cap_leaves_out_only_the_rest(
    config: DiagnosticsConfig,
    shown: Seq<DiagnosticView>,
)
    ensures
        ledger::capped(config, shown).is_prefix_of(shown),
        config.max_per_file == 0 ==> ledger::capped(config, shown) == shown,
        config.max_per_file > 0 && shown.len() <= config.max_per_file ==> ledger::capped(
            config,
            shown,
        ) == shown,
        config.max_per_file > 0 && shown.len() > config.max_per_file ==> ledger::capped(
            config,
            shown,
        ).len() == config.max_per_file,
{
    assert(shown.take(shown.len() as int) =~= shown);
}

} // verus!
