//! What a record reads first, what it is offered until it acknowledges, and what
//! the baseline spares it.

use crate::config::SeverityFloor;
use crate::delivery_laws;
use crate::flush_laws;
use crate::identity::RecordView;
use crate::ledger;
use crate::ledger::{ChangedView, EntryView, Ledger, Record};
use crate::soundness;
use crate::telling_laws;
use vstd::prelude::*;

verus! {

/// Whether no report is kept for `record`.
pub open spec fn nothing_kept(m: Ledger, record: RecordView) -> bool {
    forall|k: Seq<char>| (#[trigger] ledger::queue_at(m.retained, record, k)).len() == 0
}

/// Whether `record` reads file `key`: its current state, or what is reported to
/// the record as one of its writers.
pub open spec fn reads(m: Ledger, record: RecordView, key: Seq<char>) -> bool {
    ledger::admitted(m, record, key) || delivery_laws::addressed(
        ledger::recipients(m, Some(record), key),
        record,
    )
}

/// What `record` starts from: its history, or the baseline while it has none.
pub open spec fn history_of(m: Ledger, record: RecordView) -> Record {
    ledger::seed(m, record).sessions[record]
}

/// A record that is not registered has nothing kept for it, and reads the entries
/// as they are given: its report is one pass over them, in their order, against
/// what it was told.
pub proof fn law_an_unregistered_record_reads_what_is_given(
    m: Ledger,
    record: RecordView,
    entries: Seq<EntryView>,
)
    requires
        ledger::sound(m),
        !m.roots.dom().contains(record),
    ensures
        nothing_kept(m, record),
        ledger::composed(m, record, entries) == ledger::diff_all(
            m.config,
            history_of(m, record),
            entries,
        ),
{
    soundness::lemma_prepared(m, record, entries);
    assert(!m.retained.dom().contains(record));
}

/// What is kept for a record for which nothing was, once it reads.
proof fn lemma_fresh_queue(m: Ledger, record: RecordView, entries: Seq<EntryView>, k: Seq<char>)
    requires
        ledger::sound(m),
        telling_laws::distinct_keys(entries),
        nothing_kept(m, record),
    ensures
        ({
            let ready = ledger::prepared(m, record, entries);
            let q = ledger::queue_at(ready.retained, record, k);
            let for_record = delivery_laws::addressed(
                ledger::recipients(m, Some(record), k),
                record,
            );
            &&& !delivery_laws::listed(entries, k) || !for_record ==> q.len() == 0
            &&& forall|i: int|
                0 <= i < entries.len() && (#[trigger] entries[i]).key == k && for_record
                    ==> if telling_laws::waits(history_of(m, record), entries[i]) {
                    q.len() == 1 && q[0].file == entries[i]
                } else {
                    q.len() == 0
                }
        }),
{
    let start = ledger::seed(m, record);
    let seen = ledger::observe(start, Some(record), entries);
    soundness::lemma_observe(start, Some(record), entries);
    flush_laws::lemma_observe_exact(start, Some(record), entries, record, k);
    delivery_laws::lemma_discard_fronts(seen, record, k);
    assert(ledger::queue_at(m.retained, record, k).len() == 0);
    let qs = ledger::queue_at(seen.retained, record, k);
    let told = ledger::lookup(history_of(m, record), k);
    soundness::lemma_consumed_bound(qs, told);
    assert(ledger::recipients(start, Some(record), k) == ledger::recipients(m, Some(record), k));
    assert(ledger::committed(start, record, k) == told);
}

/// What a record for which nothing is kept reads: of distinct files each one in
/// its current state.
proof fn lemma_fresh(m: Ledger, record: RecordView, entries: Seq<EntryView>)
    requires
        ledger::sound(m),
        telling_laws::distinct_keys(entries),
        nothing_kept(m, record),
    ensures
        flush_laws::steady(m, record, entries),
        ({
            let ready = ledger::prepared(m, record, entries);
            let files = ledger::routed(ready, record, entries);
            let history = history_of(m, record);
            &&& ready.sessions[record] == history
            &&& forall|k: Seq<char>| #[trigger]
                files.dom().contains(k) ==> delivery_laws::listed(entries, k)
            &&& forall|i: int|
                0 <= i < entries.len() ==> (files.dom().contains((#[trigger] entries[i]).key)
                    ==> files[entries[i].key] == entries[i] && reads(m, record, entries[i].key))
            &&& forall|i: int|
                0 <= i < entries.len() && reads(m, record, (#[trigger] entries[i]).key)
                    && telling_laws::waits(history, entries[i]) ==> files.dom().contains(
                    entries[i].key,
                )
            &&& forall|i: int|
                0 <= i < entries.len() && ledger::admitted(m, record, (#[trigger] entries[i]).key)
                    ==> files.dom().contains(entries[i].key)
            &&& ledger::reading(ready, record, entries).len() <= entries.len()
        }),
{
    let ready = ledger::prepared(m, record, entries);
    let files = ledger::routed(ready, record, entries);
    let list = ledger::reading(ready, record, entries);
    soundness::lemma_prepared(m, record, entries);
    assert forall|k: Seq<char>| (#[trigger] ledger::queue_at(ready.retained, record, k)).len()
        <= 1 by {
        lemma_fresh_queue(m, record, entries, k);
        if delivery_laws::listed(entries, k) {
            let i = choose|i: int| 0 <= i < entries.len() && (#[trigger] entries[i]).key == k;
            assert(entries[i].key == k);
        }
    }
    assert forall|k: Seq<char>| #[trigger] files.dom().contains(k) implies delivery_laws::listed(
        entries,
        k,
    ) by {
        lemma_fresh_queue(m, record, entries, k);
        flush_laws::lemma_current_exact(ready, record, entries, k);
    }
    assert forall|i: int|
        0 <= i < entries.len() && files.dom().contains((#[trigger] entries[i]).key) implies files[entries[i].key]
        == entries[i] && reads(m, record, entries[i].key) by {
        let k = entries[i].key;
        lemma_fresh_queue(m, record, entries, k);
        flush_laws::lemma_current_exact(ready, record, entries, k);
        flush_laws::lemma_prepared_readers(m, record, entries, k);
    }
    assert forall|i: int|
        0 <= i < entries.len() && reads(m, record, (#[trigger] entries[i]).key)
            && telling_laws::waits(history_of(m, record), entries[i]) implies files.dom().contains(
        entries[i].key,
    ) by {
        let k = entries[i].key;
        assert(delivery_laws::listed(entries, k));
        lemma_fresh_queue(m, record, entries, k);
        flush_laws::lemma_current_exact(ready, record, entries, k);
        flush_laws::lemma_prepared_readers(m, record, entries, k);
    }
    assert forall|i: int|
        0 <= i < entries.len() && ledger::admitted(
            m,
            record,
            (#[trigger] entries[i]).key,
        ) implies files.dom().contains(entries[i].key) by {
        let k = entries[i].key;
        assert(delivery_laws::listed(entries, k));
        flush_laws::lemma_current_exact(ready, record, entries, k);
        flush_laws::lemma_prepared_readers(m, record, entries, k);
    }
    let keys = entries.map_values(|e: EntryView| e.key);
    vstd::seq_lib::seq_to_set_is_finite(keys);
    keys.lemma_cardinality_of_set();
    assert forall|k: Seq<char>| #[trigger] files.dom().contains(k) implies keys.to_set().contains(
        k,
    ) by {
        assert(delivery_laws::listed(entries, k));
        let i = choose|i: int| 0 <= i < entries.len() && (#[trigger] entries[i]).key == k;
        assert(keys[i] == k);
    }
    vstd::set_lib::lemma_len_subset(files.dom(), keys.to_set());
    flush_laws::lemma_reads(m, record, entries);
    let read = list.map_values(|e: EntryView| e.key);
    assert(read.no_duplicates()) by {
        assert forall|i: int, j: int| 0 <= i < read.len() && 0 <= j < read.len() && i
            != j implies read[i] != read[j] by {
            if i < j {
                assert(list[i].key != list[j].key);
            } else {
                assert(list[j].key != list[i].key);
            }
        }
    }
    read.unique_seq_to_set();
    assert(read.to_set().subset_of(files.dom())) by {
        assert forall|k: Seq<char>| #[trigger] read.to_set().contains(k) implies files.dom().contains(
            k,
        ) by {
            let i = choose|i: int| 0 <= i < read.len() && read[i] == k;
            assert(files.dom().contains(list[i].key));
        }
    }
    vstd::set_lib::lemma_len_subset(read.to_set(), files.dom());
}

/// Of distinct files, each that a record reads is told exactly once, whatever the
/// budget: with nothing kept for the record at first, `n` flushes over the files,
/// as many as there are files or more, name each file that showed something else
/// than the record was told, unless it is muted, once, and no other; and the next
/// flush says nothing.
pub proof fn law_every_entry_is_told_exactly_once(
    m: Ledger,
    record: RecordView,
    entries: Seq<EntryView>,
    n: nat,
)
    requires
        ledger::sound(m),
        telling_laws::distinct_keys(entries),
        nothing_kept(m, record),
        n >= entries.len(),
    ensures
        forall|i: int|
            0 <= i < entries.len() ==> flush_laws::named(
                m,
                record,
                entries,
                n,
                (#[trigger] entries[i]).key,
            ) == if reads(m, record, entries[i].key) && telling_laws::waits(
                history_of(m, record),
                entries[i],
            ) && !telling_laws::silent(entries[i]) {
                1nat
            } else {
                0nat
            },
        forall|k: Seq<char>|
            !#[trigger] delivery_laws::listed(entries, k) ==> flush_laws::named(
                m,
                record,
                entries,
                n,
                k,
            ) == 0,
        ledger::composed(flush_laws::flushes(m, record, entries, n), record, entries)
            == ledger::diff_start(m.config),
{
    let ready = ledger::prepared(m, record, entries);
    let files = ledger::routed(ready, record, entries);
    let list = ledger::reading(ready, record, entries);
    let history = history_of(m, record);
    lemma_fresh(m, record, entries);
    flush_laws::lemma_reads(m, record, entries);
    flush_laws::law_flushes_tell_every_file_exactly_once(m, record, entries, n);
    assert forall|i: int| 0 <= i < entries.len() implies flush_laws::named(
        m,
        record,
        entries,
        n,
        (#[trigger] entries[i]).key,
    ) == if reads(m, record, entries[i].key) && telling_laws::waits(history, entries[i])
        && !telling_laws::silent(entries[i]) {
        1nat
    } else {
        0nat
    } by {
        let k = entries[i].key;
        if files.dom().contains(k) {
            let x = choose|x: int| 0 <= x < list.len() && (#[trigger] list[x]).key == k;
            assert(list[x] == entries[i]);
        } else {
            assert(!delivery_laws::listed(list, k)) by {
                if delivery_laws::listed(list, k) {
                    let x = choose|x: int| 0 <= x < list.len() && (#[trigger] list[x]).key == k;
                    assert(files.dom().contains(list[x].key));
                }
            }
        }
    }
    assert forall|k: Seq<char>| !#[trigger] delivery_laws::listed(entries, k) implies flush_laws::named(
        m,
        record,
        entries,
        n,
        k,
    ) == 0 by {
        assert(!delivery_laws::listed(list, k)) by {
            if delivery_laws::listed(list, k) {
                let x = choose|x: int| 0 <= x < list.len() && (#[trigger] list[x]).key == k;
                assert(files.dom().contains(list[x].key));
            }
        }
    }
}

/// A pass has something to acknowledge where a file waits, and nowhere else.
proof fn lemma_owed(m: Ledger, record: RecordView, entries: Seq<EntryView>)
    requires
        ledger::sound(m),
        flush_laws::steady(m, record, entries),
    ensures
        ({
            let ready = ledger::prepared(m, record, entries);
            let list = ledger::reading(ready, record, entries);
            &&& ledger::stage_token(m, record, entries) is Some <==> exists|i: int|
                0 <= i < list.len() && telling_laws::waits(ready.sessions[record], #[trigger] list[i])
            &&& ledger::stage_token(m, record, entries) is None ==> ledger::composed(
                m,
                record,
                entries,
            ) == ledger::diff_start(m.config)
        }),
{
    let ready = ledger::prepared(m, record, entries);
    let list = ledger::reading(ready, record, entries);
    let history = ready.sessions[record];
    soundness::lemma_prepared(m, record, entries);
    flush_laws::lemma_reads(m, record, entries);
    telling_laws::lemma_pass(m.config, history, list);
    if forall|i: int| 0 <= i < list.len() ==> !telling_laws::waits(history, #[trigger] list[i]) {
        assert forall|i: int| 0 <= i < list.len() implies (#[trigger] list[i]).hash()
            == ledger::lookup(history, list[i].key) by {
            assert(!telling_laws::waits(history, list[i]));
        }
        delivery_laws::lemma_nothing_new(m.config, history, list);
    }
}

/// A report is offered until it is acknowledged. Staging twice over the same
/// files composes the same report. A token is given exactly where a file the
/// record reads shows something else than it was told, so where one is changed,
/// cleared, or muted with something on record. The second token is another one,
/// and it alone acknowledges; and once it has, with nothing deferred, the same
/// files are reported as nothing and get no token.
pub proof fn law_the_last_token_alone_acknowledges(
    m: Ledger,
    record: RecordView,
    entries: Seq<EntryView>,
)
    requires
        ledger::sound(m),
        flush_laws::steady(m, record, entries),
        m.next_token + 1 < u64::MAX,
    ensures
        ({
            let ready = ledger::prepared(m, record, entries);
            let list = ledger::reading(ready, record, entries);
            let report = ledger::composed(m, record, entries);
            let first = ledger::stage_token(m, record, entries);
            let once = ledger::stage(m, record, entries);
            let second = ledger::stage_token(once, record, entries);
            let twice = ledger::stage(once, record, entries);
            &&& ledger::composed(once, record, entries) == report
            &&& first is Some <==> exists|i: int|
                0 <= i < list.len() && telling_laws::waits(ready.sessions[record], #[trigger] list[i])
            &&& first is Some <==> second is Some
            &&& first is None ==> report == ledger::diff_start(m.config)
            &&& first matches Some(old_token) ==> second matches Some(token) && {
                let after = ledger::commit(twice, record, token);
                &&& old_token != token
                &&& !ledger::acknowledges(twice, record, old_token)
                &&& ledger::commit(twice, record, old_token) == twice
                &&& ledger::acknowledges(twice, record, token)
                &&& report.report.omitted == 0 ==> ledger::composed(after, record, entries)
                    == ledger::diff_start(m.config) && ledger::stage_token(after, record, entries)
                    is None
            }
        }),
{
    let ready = ledger::prepared(m, record, entries);
    let once = ledger::stage(m, record, entries);
    soundness::lemma_prepared(m, record, entries);
    lemma_owed(m, record, entries);
    flush_laws::lemma_stage_follows(m, record, entries);
    flush_laws::lemma_follows(m, record, entries, once, Seq::empty());
    assert(ledger::composed(once, record, entries) == ledger::composed(m, record, entries));
    if ledger::composed(m, record, entries).report.omitted == 0 {
        flush_laws::law_a_flush_is_not_repeated(once, record, entries);
    }
}

/// For a record for which nothing is kept: a token is given exactly where one of
/// the entries it reads shows something else than it was told.
pub proof fn law_a_token_is_given_where_an_entry_waits(
    m: Ledger,
    record: RecordView,
    entries: Seq<EntryView>,
)
    requires
        ledger::sound(m),
        telling_laws::distinct_keys(entries),
        nothing_kept(m, record),
    ensures
        ledger::stage_token(m, record, entries) is Some <==> exists|i: int|
            0 <= i < entries.len() && reads(m, record, (#[trigger] entries[i]).key)
                && telling_laws::waits(history_of(m, record), entries[i]),
{
    let ready = ledger::prepared(m, record, entries);
    let files = ledger::routed(ready, record, entries);
    let list = ledger::reading(ready, record, entries);
    let history = history_of(m, record);
    lemma_fresh(m, record, entries);
    lemma_owed(m, record, entries);
    flush_laws::lemma_reads(m, record, entries);
    if exists|i: int|
        0 <= i < entries.len() && reads(m, record, (#[trigger] entries[i]).key)
            && telling_laws::waits(history, entries[i]) {
        let i = choose|i: int|
            0 <= i < entries.len() && reads(m, record, (#[trigger] entries[i]).key)
                && telling_laws::waits(history, entries[i]);
        assert(files.dom().contains(entries[i].key));
        let x = choose|x: int| 0 <= x < list.len() && (#[trigger] list[x]).key == entries[i].key;
        assert(telling_laws::waits(history, list[x]));
    }
    if exists|x: int| 0 <= x < list.len() && telling_laws::waits(history, #[trigger] list[x]) {
        let x = choose|x: int|
            0 <= x < list.len() && telling_laws::waits(history, #[trigger] list[x]);
        assert(files.dom().contains(list[x].key));
        assert(delivery_laws::listed(entries, list[x].key));
        let i = choose|i: int| 0 <= i < entries.len() && (#[trigger] entries[i]).key == list[x].key;
        assert(reads(m, record, entries[i].key));
    }
}

/// A report names as changed files that show something, and as cleared files
/// that show nothing.
proof fn lemma_kinds(
    config: crate::config::DiagnosticsConfig,
    record: Record,
    list: Seq<EntryView>,
)
    ensures
        ({
            let d = ledger::diff_all(config, record, list);
            &&& forall|x: int|
                0 <= x < d.report.changed.len() ==> exists|i: int|
                    0 <= i < list.len() && (#[trigger] list[i]).key == (
                    #[trigger] d.report.changed[x]).key && list[i].hash() is Some
            &&& forall|x: int|
                0 <= x < d.report.cleared.len() ==> exists|i: int|
                    0 <= i < list.len() && (#[trigger] list[i]).key
                        == #[trigger] d.report.cleared[x] && list[i].hash() is None
            &&& config.max_total == 0 ==> d.report.omitted == 0 && d.budget is None
        }),
    decreases list.len(),
{
    if list.len() > 0 {
        let init = list.drop_last();
        lemma_kinds(config, record, init);
        let s = ledger::diff_all(config, record, init);
        let d = ledger::diff_all(config, record, list);
        assert(list.last() == list[list.len() - 1]);
        assert forall|x: int| 0 <= x < d.report.changed.len() implies exists|i: int|
            0 <= i < list.len() && (#[trigger] list[i]).key == (#[trigger] d.report.changed[x]).key
                && list[i].hash() is Some by {
            if x < s.report.changed.len() {
                assert(d.report.changed[x] == s.report.changed[x]);
                let i = choose|i: int|
                    0 <= i < init.len() && (#[trigger] init[i]).key == s.report.changed[x].key
                        && init[i].hash() is Some;
                assert(list[i] == init[i]);
            } else {
                assert(list[list.len() - 1].key == d.report.changed[x].key);
            }
        }
        assert forall|x: int| 0 <= x < d.report.cleared.len() implies exists|i: int|
            0 <= i < list.len() && (#[trigger] list[i]).key == #[trigger] d.report.cleared[x]
                && list[i].hash() is None by {
            if x < s.report.cleared.len() {
                assert(d.report.cleared[x] == s.report.cleared[x]);
                let i = choose|i: int|
                    0 <= i < init.len() && (#[trigger] init[i]).key == s.report.cleared[x]
                        && init[i].hash() is None;
                assert(list[i] == init[i]);
            } else {
                assert(list[list.len() - 1].key == d.report.cleared[x]);
            }
        }
    }
}

proof fn lemma_changed_count(changed: Seq<ChangedView>, key: Seq<char>)
    ensures
        telling_laws::changed_count(changed, key) > 0 <==> exists|x: int|
            0 <= x < changed.len() && (#[trigger] changed[x]).key == key,
    decreases changed.len(),
{
    if changed.len() > 0 {
        let init = changed.drop_last();
        lemma_changed_count(init, key);
        assert(changed.last() == changed[changed.len() - 1]);
        if exists|x: int| 0 <= x < changed.len() && (#[trigger] changed[x]).key == key {
            let x = choose|x: int| 0 <= x < changed.len() && (#[trigger] changed[x]).key == key;
            if x < init.len() {
                assert(init[x].key == key);
            }
        }
        if exists|x: int| 0 <= x < init.len() && (#[trigger] init[x]).key == key {
            let x = choose|x: int| 0 <= x < init.len() && (#[trigger] init[x]).key == key;
            assert(changed[x].key == key);
        }
    }
}

proof fn lemma_cleared_count(cleared: Seq<Seq<char>>, key: Seq<char>)
    ensures
        telling_laws::cleared_count(cleared, key) > 0 <==> cleared.contains(key),
    decreases cleared.len(),
{
    if cleared.len() > 0 {
        let init = cleared.drop_last();
        lemma_cleared_count(init, key);
        assert(cleared.last() == cleared[cleared.len() - 1]);
        if cleared.contains(key) {
            let x = choose|x: int| 0 <= x < cleared.len() && cleared[x] == key;
            if x < init.len() {
                assert(init[x] == key);
            }
        }
        if init.contains(key) {
            let x = choose|x: int| 0 <= x < init.len() && init[x] == key;
            assert(cleared[x] == key);
        }
    }
}

/// The baseline, entry by entry. A record without a history, for which nothing is
/// kept, starts from it: an entry that shows what the baseline holds of its file
/// is not named by the record's first flush, whatever the budget. With no limit
/// on the total, one that shows nothing where the baseline holds something is
/// cleared, unless it is muted, and one that shows something else is changed.
pub proof fn law_the_baseline_is_what_a_new_record_was_told(
    m: Ledger,
    baseline: Record,
    record: RecordView,
    entries: Seq<EntryView>,
    i: int,
)
    requires
        ledger::sound(m),
        m.baseline == Some(baseline),
        !m.sessions.dom().contains(record),
        nothing_kept(m, record),
        telling_laws::distinct_keys(entries),
        0 <= i < entries.len(),
        ledger::admitted(m, record, entries[i].key),
    ensures
        ({
            let e = entries[i];
            let report = ledger::composed(m, record, entries).report;
            &&& e.hash() == ledger::lookup(baseline, e.key) ==> telling_laws::mentions(
                report,
                e.key,
            ) == 0
            &&& m.config.max_total == 0 && e.hash() is None && baseline.dom().contains(e.key)
                && e.floor != SeverityFloor::Off ==> report.cleared.contains(e.key)
            &&& m.config.max_total == 0 && e.hash() is Some && e.hash() != ledger::lookup(
                baseline,
                e.key,
            ) ==> exists|x: int|
                0 <= x < report.changed.len() && (#[trigger] report.changed[x]).key == e.key
        }),
{
    let e = entries[i];
    let ready = ledger::prepared(m, record, entries);
    let files = ledger::routed(ready, record, entries);
    let list = ledger::reading(ready, record, entries);
    let report = ledger::composed(m, record, entries).report;
    soundness::lemma_prepared(m, record, entries);
    lemma_fresh(m, record, entries);
    flush_laws::lemma_reads(m, record, entries);
    assert(history_of(m, record) == baseline);
    assert(files.dom().contains(e.key));
    let x = choose|x: int| 0 <= x < list.len() && (#[trigger] list[x]).key == e.key;
    assert(list[x] == e);
    telling_laws::law_a_file_is_told_or_deferred(m.config, baseline, list, x);
    lemma_kinds(m.config, baseline, list);
    lemma_changed_count(report.changed, e.key);
    lemma_cleared_count(report.cleared, e.key);
    let after = telling_laws::passed(m.config, baseline, list);
    telling_laws::lemma_waiting_has(after, list, x);
    if e.hash() is None && report.changed.len() > 0 {
        assert(forall|y: int|
            0 <= y < report.changed.len() ==> (#[trigger] report.changed[y]).key != e.key) by {
            assert forall|y: int| 0 <= y < report.changed.len() implies (
            #[trigger] report.changed[y]).key != e.key by {
                let z = choose|z: int|
                    0 <= z < list.len() && (#[trigger] list[z]).key == report.changed[y].key
                        && list[z].hash() is Some;
                assert(z < x || z > x || z == x);
                if report.changed[y].key == e.key && z != x {
                    assert(list[z].key == list[x].key);
                }
            }
        }
    }
    if e.hash() is Some && report.cleared.contains(e.key) {
        let y = choose|y: int| 0 <= y < report.cleared.len() && report.cleared[y] == e.key;
        let z = choose|z: int|
            0 <= z < list.len() && (#[trigger] list[z]).key == report.cleared[y]
                && list[z].hash() is None;
        assert(list[z].key == list[x].key);
        assert(z == x);
    }
}

/// Ledgers from which `w` reads the same.
spec fn alike(a: Ledger, b: Ledger, w: RecordView) -> bool {
    &&& a.config == b.config
    &&& a.sources == b.sources
    &&& a.roots == b.roots
    &&& a.ownership == b.ownership
    &&& a.sessions == b.sessions
    &&& a.sessions.dom().contains(w)
    &&& a.next_snapshot == b.next_snapshot
    &&& forall|k: Seq<char>| #[trigger]
        ledger::queue_at(a.retained, w, k) == ledger::queue_at(b.retained, w, k)
}

proof fn lemma_recipients_alike(
    a: Ledger,
    b: Ledger,
    e: EntryView,
    to: Seq<ledger::Recipient>,
    w: RecordView,
)
    requires
        alike(a, b, w),
    ensures
        alike(
            ledger::observe_recipients(a, e, to),
            ledger::observe_recipients(b, e, to),
            w,
        ),
    decreases to.len(),
{
    if to.len() > 0 {
        let init = to.drop_last();
        lemma_recipients_alike(a, b, e, init, w);
        let a0 = ledger::observe_recipients(a, e, init);
        let b0 = ledger::observe_recipients(b, e, init);
        let a1 = ledger::observe_recipients(a, e, to);
        let b1 = ledger::observe_recipients(b, e, to);
        assert forall|k: Seq<char>| #[trigger]
            ledger::queue_at(a1.retained, w, k) == ledger::queue_at(b1.retained, w, k) by {
            assert(ledger::queue_at(a0.retained, w, k) == ledger::queue_at(b0.retained, w, k));
            assert(ledger::committed(a0, w, k) == ledger::committed(b0, w, k));
        }
    }
}

proof fn lemma_observe_alike(
    a: Ledger,
    b: Ledger,
    reader: Option<RecordView>,
    entries: Seq<EntryView>,
    w: RecordView,
)
    requires
        alike(a, b, w),
    ensures
        alike(ledger::observe(a, reader, entries), ledger::observe(b, reader, entries), w),
    decreases entries.len(),
{
    if entries.len() > 0 {
        let init = entries.drop_last();
        lemma_observe_alike(a, b, reader, init, w);
        let a0 = ledger::observe(a, reader, init);
        let b0 = ledger::observe(b, reader, init);
        let key = entries.last().key;
        assert(ledger::recipients(a0, reader, key) == ledger::recipients(b0, reader, key));
        lemma_recipients_alike(
            a0,
            b0,
            entries.last(),
            ledger::recipients(a0, reader, key),
            w,
        );
    }
}

/// Adopting a baseline leaves a record that has a history alone: its next report,
/// and what it was told after its next flush, are what they would have been.
pub proof fn law_a_baseline_leaves_histories_alone(
    m: Ledger,
    baseline: Record,
    record: RecordView,
    entries: Seq<EntryView>,
)
    requires
        ledger::sound(m),
        m.sessions.dom().contains(record),
    ensures
        ({
            let with = Ledger { baseline: Some(baseline), ..m };
            &&& ledger::composed(with, record, entries) == ledger::composed(m, record, entries)
            &&& ledger::flush(with, record, entries).sessions == ledger::flush(
                m,
                record,
                entries,
            ).sessions
        }),
{
    let with = Ledger { baseline: Some(baseline), ..m };
    let a = ledger::observe(with, Some(record), entries);
    let b = ledger::observe(m, Some(record), entries);
    assert(ledger::seed(with, record) == with);
    assert(ledger::seed(m, record) == m);
    assert(alike(with, m, record));
    lemma_observe_alike(with, m, Some(record), entries, record);
    let x = ledger::prepared(with, record, entries);
    let y = ledger::prepared(m, record, entries);
    soundness::lemma_prepared(with, record, entries);
    soundness::lemma_prepared(m, record, entries);
    assert forall|k: Seq<char>| #[trigger]
        ledger::queue_at(x.retained, record, k) == ledger::queue_at(y.retained, record, k) by {
        assert(ledger::queue_at(a.retained, record, k) == ledger::queue_at(b.retained, record, k));
        delivery_laws::lemma_discard_fronts(a, record, k);
        delivery_laws::lemma_discard_fronts(b, record, k);
    }
    soundness::lemma_observe(with, Some(record), entries);
    soundness::lemma_observe(m, Some(record), entries);
    delivery_laws::lemma_discard_owners(a, record);
    delivery_laws::lemma_discard_owners(b, record);
    assert forall|at: (Seq<char>, Seq<char>)| #[trigger]
        crate::table::has_row(x.ownership, at) == crate::table::has_row(y.ownership, at) by {
        assert(crate::table::has_row(a.ownership, at) == crate::table::has_row(b.ownership, at));
    }
    delivery_laws::lemma_routed_same(x, y, record, entries);
    assert(ledger::composed(with, record, entries) == ledger::composed(m, record, entries));
    lemma_flush_sessions(with, record, entries);
    lemma_flush_sessions(m, record, entries);
}

/// What a flush records.
proof fn lemma_flush_sessions(m: Ledger, record: RecordView, entries: Seq<EntryView>)
    requires
        m.sessions.dom().contains(record),
    ensures
        ledger::flush(m, record, entries).sessions == m.sessions.insert(
            record,
            ledger::apply_updates(
                m.sessions[record],
                ledger::composed(m, record, entries).updates,
            ),
        ),
{
    soundness::lemma_prepared(m, record, entries);
    let staged = ledger::stage(m, record, entries);
    let d = ledger::composed(m, record, entries);
    if d.updates.len() == 0 {
        assert(m.sessions.insert(record, m.sessions[record]) =~= m.sessions);
    } else {
        let mid = Ledger {
            pending: staged.pending.remove(record),
            sessions: staged.sessions.insert(
                record,
                ledger::apply_updates(m.sessions[record], d.updates),
            ),
            ..staged
        };
        soundness::lemma_commit_named(mid, record, staged.pending[record].snapshots);
    }
}

} // verus!
