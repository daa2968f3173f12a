//! Who owns a file, what is kept for whom, and how long a record lives.

use crate::config::SeverityFloor;
use crate::identity::{CallerView, RecordView};
use crate::ledger;
use crate::ledger::{
    EntryView, Ledger, LifetimeView, OwnerView, Owners, Queues, Recipient, RetainedView,
};
use crate::soundness;
use crate::table;
use vstd::prelude::*;

verus! {

/// What a writer is offered goes behind what is already kept for it, and only
/// where it says something new: afterwards the last state that the writer was
/// told or is kept is the one that was offered.
pub proof fn law_an_offer_goes_behind_what_is_kept(
    queue: Seq<RetainedView>,
    told: Option<u64>,
    report: RetainedView,
)
    ensures
        ({
            let after = ledger::offered(queue, told, report);
            &&& queue.is_prefix_of(after)
            &&& after.len() <= queue.len() + 1
            &&& after.len() > queue.len() ==> after.last() == report
            &&& after.len() > 0 ==> after.last().hash == report.hash
            &&& after.len() == 0 ==> told == report.hash
            &&& queue.len() > 0 && queue.last().hash == report.hash ==> after == queue
            &&& queue.len() == 0 && told == report.hash ==> after == queue
        }),
{
    let after = ledger::offered(queue, told, report);
    assert(queue =~= after.take(queue.len() as int));
}

/// An offer reaches all its writers and nobody else, and of what is kept for
/// them nothing but the file it is about.
pub proof fn law_an_offer_reaches_its_writers(
    m: Ledger,
    retained: Queues,
    writers: Set<RecordView>,
    report: RetainedView,
    w: RecordView,
    key: Seq<char>,
)
    ensures
        ({
            let before = ledger::queue_at(retained, w, key);
            let after = ledger::queue_at(
                ledger::offer_writers(m, retained, writers, report),
                w,
                key,
            );
            &&& before.is_prefix_of(after)
            &&& !writers.contains(w) || key != report.file.key ==> after == before
            &&& writers.contains(w) && key == report.file.key && after.len() > 0
                ==> after.last().hash == report.hash
            &&& writers.contains(w) && key == report.file.key && after.len() == 0
                ==> ledger::committed(m, w, key) == report.hash
        }),
{
    let before = ledger::queue_at(retained, w, key);
    assert(before =~= before.take(before.len() as int));
    if writers.contains(w) && key == report.file.key {
        law_an_offer_goes_behind_what_is_kept(before, ledger::committed(m, w, key), report);
    }
}

/// What a record has been told of a file is what its history says of it, or
/// what the baseline says while it has no history.
pub proof fn law_what_a_record_was_told(m: Ledger, w: RecordView, key: Seq<char>)
    ensures
        m.sessions.dom().contains(w) ==> ledger::committed(m, w, key) == ledger::lookup(
            m.sessions[w],
            key,
        ),
        !m.sessions.dom().contains(w) && m.baseline is Some ==> ledger::committed(m, w, key)
            == ledger::lookup(m.baseline->Some_0, key),
        !m.sessions.dom().contains(w) && m.baseline is None ==> ledger::committed(m, w, key)
            is None,
{
}

/// Whether a recipient stands for a row of the owners.
pub open spec fn stands_for_owner(
    to: Recipient,
    row: ((Seq<char>, Seq<char>), OwnerView),
) -> bool {
    &&& to.root == row.0.0
    &&& to.generation == row.1.generation
    &&& to.writers == row.1.writers
}

proof fn lemma_one_owner_more(ownership: Owners, key: Seq<char>)
    requires
        ownership.len() > 0,
    ensures
        ({
            let row = ownership.last();
            let some = ledger::owners_of(ownership.drop_last(), key);
            ledger::owners_of(ownership, key) == if row.0.1 == key {
                some.push(
                    Recipient {
                        root: row.0.0,
                        generation: row.1.generation,
                        writers: row.1.writers,
                    },
                )
            } else {
                some
            }
        }),
{
    reveal(Seq::filter);
    let row = ownership.last();
    let all = ledger::owners_of(ownership, key);
    let some = ledger::owners_of(ownership.drop_last(), key);
    if row.0.1 == key {
        assert(all =~= some.push(
            Recipient { root: row.0.0, generation: row.1.generation, writers: row.1.writers },
        ));
    } else {
        assert(all =~= some);
    }
}

/// Where an owner stands among the recipients.
proof fn lemma_owner_is_listed(ownership: Owners, key: Seq<char>, i: int) -> (j: int)
    requires
        0 <= i < ownership.len(),
        ownership[i].0.1 == key,
    ensures
        0 <= j < ledger::owners_of(ownership, key).len(),
        stands_for_owner(ledger::owners_of(ownership, key)[j], ownership[i]),
    decreases ownership.len(),
{
    lemma_one_owner_more(ownership, key);
    if i < ownership.len() - 1 {
        lemma_owner_is_listed(ownership.drop_last(), key, i)
    } else {
        ledger::owners_of(ownership, key).len() - 1
    }
}

/// Which owner a recipient stands for.
proof fn lemma_listed_is_an_owner(ownership: Owners, key: Seq<char>, j: int) -> (i: int)
    requires
        0 <= j < ledger::owners_of(ownership, key).len(),
    ensures
        0 <= i < ownership.len(),
        ownership[i].0.1 == key,
        stands_for_owner(ledger::owners_of(ownership, key)[j], ownership[i]),
    decreases ownership.len(),
{
    if ownership.len() == 0 {
        reveal(Seq::filter);
        0
    } else {
        lemma_one_owner_more(ownership, key);
        if j < ledger::owners_of(ownership.drop_last(), key).len() {
            lemma_listed_is_an_owner(ownership.drop_last(), key, j)
        } else {
            ownership.len() - 1
        }
    }
}

/// A file's state is reported to the writers of each root that owns it, in the
/// cycle they wrote it in, and to no one else but a root that reads it without
/// owning it.
pub proof fn law_who_is_reported_to(
    m: Ledger,
    reader: Option<RecordView>,
    key: Seq<char>,
    i: int,
    j: int,
)
    ensures
        0 <= i < m.ownership.len() && m.ownership[i].0.1 == key ==> exists|k: int|
            0 <= k < ledger::recipients(m, reader, key).len() && stands_for_owner(
                #[trigger] ledger::recipients(m, reader, key)[k],
                m.ownership[i],
            ),
        0 <= j < ledger::recipients(m, reader, key).len() ==> {
            let to = ledger::recipients(m, reader, key)[j];
            ||| exists|k: int|
                0 <= k < m.ownership.len() && (#[trigger] m.ownership[k]).0.1 == key
                    && stands_for_owner(to, m.ownership[k])
            ||| reader is Some && reader == Some(RecordView::Session(to.root)) && to.writers
                == Set::<RecordView>::empty().insert(reader->Some_0) && !table::has_row(
                m.ownership,
                (to.root, key),
            )
        },
{
    let own = ledger::owners_of(m.ownership, key);
    let all = ledger::recipients(m, reader, key);
    if 0 <= i < m.ownership.len() && m.ownership[i].0.1 == key {
        let k = lemma_owner_is_listed(m.ownership, key, i);
        assert(all[k] == own[k]);
        assert(stands_for_owner(all[k], m.ownership[i]));
    }
    if 0 <= j < own.len() {
        assert(all[j] == own[j]);
        let k = lemma_listed_is_an_owner(m.ownership, key, j);
        assert(m.ownership[k].0.1 == key);
        assert(stands_for_owner(all[j], m.ownership[k]));
    }
}

/// A kept report is of the file as it was then: the same entry, with the hash
/// of what it showed and the text that its ranges count in.
pub proof fn law_a_kept_report_is_of_the_file(m: Ledger, e: EntryView, to: Recipient, id: u64)
    ensures
        ({
            let report = ledger::report_of(m, e, to, id);
            &&& report.file == e
            &&& report.hash == e.hash()
            &&& report.id == id
            &&& report.root == to.root
            &&& report.generation == to.generation
            &&& report.source is Some <==> m.sources.dom().contains(e.key)
            &&& report.source is Some ==> report.source->Some_0 == m.sources[e.key]
        }),
{
}

/// Of what is kept, the beginning that says what the record was told already is
/// spent, and no more of it.
pub proof fn law_what_was_told_is_spent(queue: Seq<RetainedView>, told: Option<u64>)
    ensures
        ({
            let n = ledger::consumed(queue, told) as int;
            &&& n <= queue.len()
            &&& forall|j: int| 0 <= j < n ==> (#[trigger] queue[j]).hash == told
            &&& n < queue.len() ==> queue[n].hash != told
        }),
    decreases queue.len(),
{
    if queue.len() > 0 && queue[0].hash == told {
        let rest = queue.drop_first();
        law_what_was_told_is_spent(rest, told);
        let n = ledger::consumed(queue, told) as int;
        assert forall|j: int| 0 <= j < n implies (#[trigger] queue[j]).hash == told by {
            if j > 0 {
                assert(rest[j - 1].hash == told);
            }
        }
        if n < queue.len() {
            assert(rest[n - 1] == queue[n]);
        }
    }
}

/// Where something is kept of a file, a record reads the oldest of it. Where
/// nothing is, it reads the current state of the file, if it may and there is
/// one.
pub proof fn law_what_is_kept_is_read_first(
    m: Ledger,
    record: RecordView,
    entries: Seq<EntryView>,
    k: Seq<char>,
)
    ensures
        ({
            let files = ledger::routed(m, record, entries);
            let kept = ledger::queue_at(m.retained, record, k);
            &&& kept.len() > 0 ==> files.dom().contains(k) && files[k] == kept[0].file
            &&& kept.len() == 0 ==> (files.dom().contains(k) <==> ledger::admitted(m, record, k)
                && exists|i: int| 0 <= i < entries.len() && (#[trigger] entries[i]).key == k)
            &&& kept.len() == 0 && files.dom().contains(k) ==> exists|i: int|
                0 <= i < entries.len() && (#[trigger] entries[i]) == files[k] && files[k].key == k
        }),
{
    lemma_current(m, record, entries, k);
}

proof fn lemma_current(m: Ledger, record: RecordView, entries: Seq<EntryView>, k: Seq<char>)
    ensures
        ({
            let files = ledger::current_for(m, record, entries);
            &&& files.dom().contains(k) <==> ledger::admitted(m, record, k) && exists|i: int|
                0 <= i < entries.len() && (#[trigger] entries[i]).key == k
            &&& files.dom().contains(k) ==> exists|i: int|
                0 <= i < entries.len() && (#[trigger] entries[i]) == files[k] && files[k].key == k
        }),
    decreases entries.len(),
{
    if entries.len() > 0 {
        let less = entries.drop_last();
        lemma_current(m, record, less, k);
        let before = ledger::current_for(m, record, less);
        let files = ledger::current_for(m, record, entries);
        let n = entries.len() - 1;
        assert(entries[n] == entries.last());
        assert(forall|i: int| 0 <= i < less.len() ==> less[i] == entries[i]);
        if before.dom().contains(k) {
            let i = choose|i: int|
                0 <= i < less.len() && (#[trigger] less[i]) == before[k] && before[k].key == k;
            assert(entries[i] == before[k]);
        }
        if exists|i: int| 0 <= i < entries.len() && (#[trigger] entries[i]).key == k {
            let i = choose|i: int| 0 <= i < entries.len() && (#[trigger] entries[i]).key == k;
            if i < n {
                assert(less[i].key == k);
            }
        }
    }
}

/// Acknowledging a kept report takes that one off, the oldest of its file, and
/// leaves everything else that is kept as it was.
pub proof fn law_the_oldest_is_taken_off(
    m: Ledger,
    record: RecordView,
    key: Seq<char>,
    w: RecordView,
    k: Seq<char>,
)
    requires
        ledger::queue_at(m.retained, record, key).len() > 0,
    ensures
        ({
            let after = ledger::pop_report(m, record, key);
            &&& ledger::queue_at(after.retained, record, key) == ledger::queue_at(
                m.retained,
                record,
                key,
            ).drop_first()
            &&& w != record || k != key ==> ledger::queue_at(after.retained, w, k)
                == ledger::queue_at(m.retained, w, k)
            &&& after.sessions == m.sessions
            &&& after.pending == m.pending
            &&& after.roots == m.roots
        }),
{
}

/// Acknowledging a report marks as delivered the cycle it was kept in, of the
/// root that owns it, and no other; who owns what does not change by it.
pub proof fn law_only_the_reported_cycle_is_delivered(
    m: Ledger,
    ownership: Owners,
    record: RecordView,
    report: RetainedView,
    i: int,
)
    requires
        0 <= i < ownership.len(),
    ensures
        ({
            let after = ledger::mark_delivered(m, ownership, record, report);
            let row = ownership[i];
            &&& after.len() == ownership.len()
            &&& after[i].0 == row.0
            &&& after[i].1.generation == row.1.generation
            &&& after[i].1.writers == row.1.writers
            &&& row.1.delivered ==> after[i].1.delivered
            &&& !row.1.delivered ==> (after[i].1.delivered <==> row.0 == (
                ledger::owning_root(m, record, report.root),
                report.file.key,
            ) && row.1.generation == report.generation && report.file.floor != SeverityFloor::Off)
        }),
{
}

/// Tidying drops the files of which nothing is kept any more, and nothing else.
pub proof fn law_tidying_loses_nothing(
    retained: Queues,
    record: RecordView,
    w: RecordView,
    k: Seq<char>,
)
    ensures
        ledger::queue_at(ledger::tidy(retained, record), w, k) == ledger::queue_at(retained, w, k),
        ledger::files_at(ledger::tidy(retained, record), record).dom().contains(k)
            ==> ledger::queue_at(retained, record, k).len() > 0,
{
    let after = ledger::tidy(retained, record);
    if retained.dom().contains(record) {
        let files = retained[record];
        let left = Map::new(
            |key: Seq<char>| files.dom().contains(key) && files[key].len() > 0,
            |key: Seq<char>| files[key],
        );
        if left.dom() =~= Set::<Seq<char>>::empty() {
            assert(!left.dom().contains(k));
            assert(after == retained.remove(record));
        } else {
            assert(after == retained.insert(record, left));
        }
        if w == record && files.dom().contains(k) && files[k].len() == 0 {
            assert(files[k] =~= Seq::<RetainedView>::empty());
        }
    }
}

/// Whether `root` owns `key`, with this owner.
pub open spec fn owns(m: Ledger, root: Seq<char>, key: Seq<char>, owner: OwnerView) -> bool {
    table::has_row(m.ownership, (root, key)) && table::rows_map(m.ownership)[(root, key)] == owner
}

/// Whether two ledgers agree about who owns a file for a root.
pub open spec fn same_owner(a: Ledger, b: Ledger, root: Seq<char>, key: Seq<char>) -> bool {
    &&& table::has_row(a.ownership, (root, key)) == table::has_row(b.ownership, (root, key))
    &&& table::has_row(a.ownership, (root, key)) ==> table::rows_map(a.ownership)[(root, key)]
        == table::rows_map(b.ownership)[(root, key)]
}

/// Writing a file makes its root own it, with the writer among the writers. A
/// file that nobody owned for that root, or whose cycle was delivered, begins a
/// new cycle with that writer alone; otherwise the writer joins those of the
/// cycle. No other file changes hands.
pub proof fn law_a_written_file_is_owned(
    m: Ledger,
    root: Seq<char>,
    key: Seq<char>,
    record: RecordView,
    other: (Seq<char>, Seq<char>),
)
    requires
        ledger::sound(m),
        m.next_generation < u64::MAX,
    ensures
        ({
            let after = ledger::claim(m, root, key, record);
            let before = table::rows_map(m.ownership);
            let had = table::has_row(m.ownership, (root, key));
            &&& had && !before[(root, key)].delivered ==> owns(
                after,
                root,
                key,
                OwnerView {
                    generation: before[(root, key)].generation,
                    delivered: false,
                    writers: before[(root, key)].writers.insert(record),
                },
            )
            &&& !had || before[(root, key)].delivered ==> owns(
                after,
                root,
                key,
                OwnerView {
                    generation: (m.next_generation + 1) as u64,
                    delivered: false,
                    writers: Set::empty().insert(record),
                },
            )
            &&& other != (root, key) ==> same_owner(after, m, other.0, other.1)
            &&& after.retained == m.retained
            &&& after.sessions == m.sessions
        }),
{
    let rows = m.ownership;
    let k = (root, key);
    let owner = ledger::owner_at(rows, root, key);
    let generation = (m.next_generation + 1) as u64;
    table::lemma_rows_map(rows);
    table::lemma_put_row(
        rows,
        k,
        OwnerView { generation, delivered: false, writers: Set::empty().insert(record) },
    );
    table::lemma_put_row(
        rows,
        k,
        OwnerView { writers: owner.writers.insert(record), ..owner },
    );
    if table::has_row(rows, k) {
        assert(table::rows_map(rows).dom().contains(k));
        let i = table::row_of(rows, k);
        assert(rows[i].1.generation > 0);
    }
    let after = ledger::claim(m, root, key, record);
    assert(table::rows_map(after.ownership).dom().contains(k));
    assert(table::rows_map(after.ownership).dom().contains(other) <==> table::has_row(
        after.ownership,
        other,
    ));
    assert(table::rows_map(rows).dom().contains(other) <==> table::has_row(rows, other));
}

/// A file that one root hands over to another is owned by the other afterwards
/// and not by the first. Where the other owned it already, the cycle that is not
/// yet delivered goes on; of two alike the writers are joined.
pub proof fn law_a_file_is_handed_over(
    m: Ledger,
    from: Seq<char>,
    root: Seq<char>,
    key: Seq<char>,
)
    requires
        ledger::sound(m),
        from != root,
        table::has_row(m.ownership, (from, key)),
    ensures
        ({
            let after = ledger::adopt_file(m, from, root, key);
            let before = table::rows_map(m.ownership);
            let own = before[(from, key)];
            let theirs = before[(root, key)];
            let had = table::has_row(m.ownership, (root, key));
            &&& !table::has_row(after.ownership, (from, key))
            &&& table::has_row(after.ownership, (root, key))
            &&& !had ==> owns(after, root, key, own)
            &&& had && own.delivered && !theirs.delivered ==> owns(after, root, key, theirs)
            &&& had && !own.delivered && theirs.delivered ==> owns(after, root, key, own)
            &&& had && own.delivered == theirs.delivered ==> owns(
                after,
                root,
                key,
                OwnerView { writers: own.writers.union(theirs.writers), ..own },
            )
            &&& after.sessions == m.sessions
            &&& after.roots == m.roots
        }),
{
    let rows = m.ownership;
    let a = (from, key);
    let b = (root, key);
    table::lemma_rows_map(rows);
    table::lemma_drop_row(rows, a);
    let owner = rows[table::row_of(rows, a)].1;
    let rest = table::drop_row(rows, a);
    table::lemma_rows_map(rest);
    assert(table::rows_map(rows).dom().contains(a));
    assert(table::rows_map(rows).dom().contains(b) <==> table::has_row(rows, b));
    assert(table::rows_map(rest).dom().contains(b) <==> table::has_row(rest, b));
    assert(table::has_row(rest, b) <==> table::has_row(rows, b));
    let after = ledger::adopt_file(m, from, root, key);
    if table::has_row(rest, b) {
        let existing = rest[table::row_of(rest, b)].1;
        let more = table::drop_row(rest, b);
        table::lemma_drop_row(rest, b);
        table::lemma_rows_map(more);
        table::lemma_put_row(more, b, ledger::merge_owner(owner, existing));
        assert(after.ownership == table::put_row(more, b, ledger::merge_owner(owner, existing)));
    } else {
        table::lemma_put_row(rest, b, owner);
        assert(after.ownership == table::put_row(rest, b, owner));
    }
    assert(table::rows_map(after.ownership).dom().contains(b));
    assert(!table::rows_map(after.ownership).dom().contains(a));
}

/// Registering a caller records its root where it brings one, and otherwise only
/// that it is known: a root that is known is not forgotten. No other caller is
/// touched.
pub proof fn law_a_caller_is_registered(m: Ledger, caller: CallerView, other: RecordView)
    ensures
        ({
            let after = ledger::register(m, caller);
            &&& after.roots.dom().contains(caller.record)
            &&& caller.root is Some ==> after.roots[caller.record] == caller.root
            &&& caller.root is None && m.roots.dom().contains(caller.record)
                ==> after.roots[caller.record] == m.roots[caller.record]
            &&& caller.root is None && !m.roots.dom().contains(caller.record)
                ==> after.roots[caller.record] is None
            &&& other != caller.record ==> ledger::lookup(after.roots, other) == ledger::lookup(
                m.roots,
                other,
            )
            &&& after.sessions == m.sessions
            &&& after.pending == m.pending
        }),
{
    if let (Some(root), Some(own)) = (caller.root, ledger::provisional(m, caller)) {
        lemma_adopt_frame(m, own, root, ledger::files_of(m.ownership, own));
    }
}

proof fn lemma_adopt_frame(m: Ledger, from: Seq<char>, root: Seq<char>, keys: Seq<Seq<char>>)
    ensures
        ({
            let after = ledger::adopt_files(m, from, root, keys);
            &&& after.roots == m.roots
            &&& after.sessions == m.sessions
            &&& after.pending == m.pending
            &&& after.lifetime == m.lifetime
        }),
    decreases keys.len(),
{
    if keys.len() > 0 {
        lemma_adopt_frame(m, from, root, keys.drop_last());
    }
}

/// A record that is used stays for the whole grace from then on, unless it or
/// its root has ended; one that has ended does not come back by being used.
pub proof fn law_use_puts_the_end_off(l: LifetimeView, caller: CallerView, now: u64)
    ensures
        ({
            let after = ledger::touch(l, caller, now);
            let life = after.records[caller.record];
            let known = l.records.dom().contains(caller.record);
            let over = caller.root is Some && l.ended_roots.contains(caller.root->Some_0);
            &&& after.records.dom().contains(caller.record)
            &&& life.ended <==> over || (known && l.records[caller.record].ended)
            &&& !life.ended ==> life.last == now
            &&& known && life.ended ==> life.last == l.records[caller.record].last
            &&& caller.root is Some ==> life.root == caller.root
            &&& caller.root is None && known ==> life.root == l.records[caller.record].root
            &&& !life.ended && !ledger::protected(l.connections, caller.record, life.root)
                ==> ledger::deadline(after, caller.record) == Some(
                now + l.grace_ms * 1_000_000,
            )
            &&& after.connections == l.connections
            &&& after.ended_roots == l.ended_roots
        }),
{
}

/// Using one record leaves every other as it was.
pub proof fn law_use_concerns_one_record(
    l: LifetimeView,
    caller: CallerView,
    now: u64,
    other: RecordView,
)
    requires
        other != caller.record,
    ensures
        ledger::lookup(ledger::touch(l, caller, now).records, other) == ledger::lookup(
            l.records,
            other,
        ),
{
}

/// An open connection protects the record that it was attached for, beside those
/// that it protected already; other connections protect what they did.
pub proof fn law_an_attached_record_is_protected(
    l: LifetimeView,
    connection: u64,
    caller: CallerView,
    now: u64,
    other: u64,
    record: RecordView,
)
    ensures
        ({
            let after = ledger::attach_life(l, connection, caller, now);
            &&& after.connections.dom().contains(connection)
            &&& after.connections[connection].contains(caller.record)
            &&& record != caller.record ==> (after.connections[connection].contains(record)
                <==> l.connections.dom().contains(connection)
                && l.connections[connection].contains(record))
            &&& other != connection ==> ledger::lookup(after.connections, other)
                == ledger::lookup(l.connections, other)
            &&& ledger::protected(
                after.connections,
                caller.record,
                after.records[caller.record].root,
            )
        }),
{
    let after = ledger::attach_life(l, connection, caller, now);
    assert(ledger::guards(
        after.connections[connection],
        caller.record,
        after.records[caller.record].root,
    ));
}

/// A connection protects a record that it speaks for, and every record whose
/// root it speaks for, and no other.
pub proof fn law_whom_a_connection_protects(
    records: Set<RecordView>,
    record: RecordView,
    root: Seq<char>,
)
    ensures
        ledger::guards(records, record, None) <==> records.contains(record),
        ledger::guards(records, record, Some(root)) <==> records.contains(record)
            || records.contains(RecordView::Session(root)),
{
}

/// Closing a connection takes its protection away and no other, and the grace of
/// the records that it alone protected begins then.
pub proof fn law_a_closed_connection_protects_nothing(
    l: LifetimeView,
    connection: u64,
    now: u64,
    record: RecordView,
)
    requires
        l.records.dom().contains(record),
    ensures
        ({
            let after = ledger::close_life(l, connection, now);
            let root = l.records[record].root;
            &&& !after.connections.dom().contains(connection)
            &&& after.records.dom() == l.records.dom()
            &&& after.records[record].root == root
            &&& after.records[record].ended == l.records[record].ended
            &&& ledger::protected(after.connections, record, root) ==> after.records[record]
                == l.records[record]
            &&& !ledger::protected(l.connections, record, root) ==> after.records[record]
                == l.records[record]
            &&& ledger::protected(l.connections, record, root) && !ledger::protected(
                after.connections,
                record,
                root,
            ) ==> after.records[record].last == now
        }),
{
    let after = ledger::close_life(l, connection, now);
    assert(after.records.dom() =~= l.records.dom());
    let root = l.records[record].root;
    if ledger::protected(after.connections, record, root) {
        let c = choose|c: u64|
            after.connections.dom().contains(c) && ledger::guards(
                #[trigger] after.connections[c],
                record,
                root,
            );
        assert(l.connections.dom().contains(c));
        assert(ledger::guards(l.connections[c], record, root));
    }
}

/// The end of a root ends its records, and the root's own, at once unless a
/// connection protects them; records of other roots live on as they were.
pub proof fn law_a_root_ends_with_its_records(
    l: LifetimeView,
    root: Seq<char>,
    now: u64,
    record: RecordView,
)
    requires
        l.records.dom().contains(record),
    ensures
        ({
            let after = ledger::end_root_life(l, root, now);
            let of_root = l.records[record].root == Some(root) || record == RecordView::Session(
                root,
            );
            &&& after.ended_roots.contains(root)
            &&& of_root ==> after.records[record].ended
            &&& of_root && !ledger::protected(l.connections, record, l.records[record].root)
                ==> ledger::expired(after, now, record)
            &&& !of_root ==> after.records[record] == l.records[record]
            &&& after.connections == l.connections
        }),
{
}

/// A record is gone exactly once its time is up, and the others are as they
/// were.
pub proof fn law_only_what_is_over_expires(l: LifetimeView, now: u64, record: RecordView)
    requires
        l.records.dom().contains(record),
    ensures
        ({
            let after = ledger::expire_life(l, now);
            let life = l.records[record];
            &&& after.records.dom().contains(record) <==> {
                ||| ledger::protected(l.connections, record, life.root)
                ||| !life.ended && now < life.last + l.grace_ms * 1_000_000
                ||| life.ended && now < life.last
            }
            &&& after.records.dom().contains(record) ==> after.records[record] == life
            &&& after.connections == l.connections
        }),
{
}

/// Ending some records leaves the others all that they had: what they were told,
/// what is staged and kept for them, their roots and their lives.
pub proof fn law_ending_leaves_the_others_alone(
    m: Ledger,
    gone: Set<RecordView>,
    other: RecordView,
)
    requires
        !gone.contains(other),
    ensures
        ({
            let after = ledger::end_records(m, gone);
            &&& ledger::lookup(after.sessions, other) == ledger::lookup(m.sessions, other)
            &&& ledger::lookup(after.pending, other) == ledger::lookup(m.pending, other)
            &&& ledger::lookup(after.roots, other) == ledger::lookup(m.roots, other)
            &&& ledger::lookup(after.retained, other) == ledger::lookup(m.retained, other)
            &&& ledger::lookup(after.lifetime.records, other) == ledger::lookup(
                m.lifetime.records,
                other,
            )
            &&& after.baseline == m.baseline
            &&& after.sources == m.sources
            &&& after.config == m.config
        }),
{
}

/// Merging one record's history into another's leaves the other with what either
/// was told, its own where both were, and ends the first.
pub proof fn law_histories_are_merged(
    m: Ledger,
    from: RecordView,
    to: RecordView,
    key: Seq<char>,
)
    requires
        from != to,
        m.sessions.dom().contains(from),
    ensures
        ({
            let after = ledger::merge_session(m, from, to);
            &&& !after.sessions.dom().contains(from)
            &&& after.sessions.dom().contains(to)
            &&& m.sessions.dom().contains(to) && m.sessions[to].dom().contains(key)
                ==> ledger::lookup(after.sessions[to], key) == Some(m.sessions[to][key])
            &&& !(m.sessions.dom().contains(to) && m.sessions[to].dom().contains(key))
                ==> ledger::lookup(after.sessions[to], key) == ledger::lookup(
                m.sessions[from],
                key,
            )
        }),
{
}

/// The record of a connection whose host named no session is its own root.
pub proof fn law_a_nameless_connection_is_its_own_root(connection: u64, caller: CallerView)
    ensures
        ({
            let own = crate::identity::connection_session(connection as nat);
            let known = ledger::connecting(connection, caller);
            &&& known.record == caller.record
            &&& caller.record == RecordView::Session(own) ==> known.root == Some(own)
            &&& caller.record != RecordView::Session(own) ==> known == caller
        }),
{
}

/// Claiming files one after the other makes each of them the writer's, and
/// leaves every other file with its owner.
proof fn lemma_claim_all(
    m: Ledger,
    root: Seq<char>,
    keys: Seq<Seq<char>>,
    record: RecordView,
    k: (Seq<char>, Seq<char>),
)
    requires
        ledger::sound(m),
        m.roots.dom().contains(record),
        m.next_generation + keys.len() <= u64::MAX,
    ensures
        ({
            let after = ledger::claim_all(m, root, keys, record);
            &&& k.0 == root && keys.contains(k.1) ==> {
                &&& table::has_row(after.ownership, k)
                &&& table::rows_map(after.ownership)[k].writers.contains(record)
                &&& !table::rows_map(after.ownership)[k].delivered
            }
            &&& k.0 != root || !keys.contains(k.1) ==> same_owner(after, m, k.0, k.1)
        }),
    decreases keys.len(),
{
    if keys.len() > 0 {
        let less = keys.drop_last();
        let last = keys.last();
        lemma_claim_all(m, root, less, record, k);
        soundness::lemma_claim_sound(m, root, less, record);
        let before = ledger::claim_all(m, root, less, record);
        law_a_written_file_is_owned(before, root, last, record, k);
        assert(keys =~= less.push(last));
        table::lemma_push_contains(less, last, k.1);
        let after = ledger::claim_all(m, root, keys, record);
        assert(after == ledger::claim(before, root, last, record));
        if k == (root, last) && table::has_row(before.ownership, k) {
            assert(table::rows_map(before.ownership)[k].writers.insert(record).contains(record));
        }
    }
}

/// The files that a caller writes are owned, with the caller among the writers
/// of a cycle that is not delivered, by the root that the caller brings, or by
/// the one it is known under, or by its own session. No file that it did not
/// write changes hands by being written.
pub proof fn law_a_write_is_attributed(
    m: Ledger,
    caller: CallerView,
    keys: Seq<Seq<char>>,
    key: Seq<char>,
    root: Seq<char>,
)
    requires
        ledger::sound(m),
        m.next_generation + keys.len() <= u64::MAX,
        root == match caller.root {
            Some(given) => given,
            None => match ledger::lookup(m.roots, caller.record) {
                Some(Some(known)) => known,
                _ => caller.record.session(),
            },
        },
    ensures
        ({
            let after = ledger::write(m, caller, keys);
            &&& keys.contains(key) ==> {
                &&& table::has_row(after.ownership, (root, key))
                &&& table::rows_map(after.ownership)[(root, key)].writers.contains(caller.record)
                &&& !table::rows_map(after.ownership)[(root, key)].delivered
            }
            &&& !keys.contains(key) ==> same_owner(
                after,
                ledger::register(m, caller),
                root,
                key,
            )
            &&& after.roots.dom().contains(caller.record)
        }),
{
    let known = ledger::register(m, caller);
    soundness::law_register_keeps_sound(m, caller);
    law_a_caller_is_registered(m, caller, caller.record);
    if let (Some(own), Some(given)) = (ledger::provisional(m, caller), caller.root) {
        soundness::lemma_adopt_sound(m, own, given, ledger::files_of(m.ownership, own));
    }
    assert(ledger::owning_root(known, caller.record, caller.record.session()) == root);
    lemma_claim_all(known, root, keys, caller.record, (root, key));
    soundness::lemma_claim_sound(known, root, keys, caller.record);
}

/// Handing one file over leaves the owners of every other file alone.
proof fn lemma_others_keep_their_files(
    m: Ledger,
    from: Seq<char>,
    root: Seq<char>,
    key: Seq<char>,
    k: (Seq<char>, Seq<char>),
)
    requires
        ledger::sound(m),
        from != root,
        k.1 != key || (k.0 != from && k.0 != root),
    ensures
        same_owner(ledger::adopt_file(m, from, root, key), m, k.0, k.1),
{
    let rows = m.ownership;
    let a = (from, key);
    let b = (root, key);
    let after = ledger::adopt_file(m, from, root, key);
    if table::has_row(rows, a) {
        table::lemma_rows_map(rows);
        table::lemma_drop_row(rows, a);
        let owner = rows[table::row_of(rows, a)].1;
        let rest = table::drop_row(rows, a);
        table::lemma_rows_map(rest);
        assert(table::rows_map(rows).dom().contains(k) <==> table::has_row(rows, k));
        assert(table::rows_map(rest).dom().contains(k) <==> table::has_row(rest, k));
        if table::has_row(rest, b) {
            let existing = rest[table::row_of(rest, b)].1;
            let more = table::drop_row(rest, b);
            table::lemma_drop_row(rest, b);
            table::lemma_rows_map(more);
            table::lemma_put_row(more, b, ledger::merge_owner(owner, existing));
        } else {
            table::lemma_put_row(rest, b, owner);
        }
        assert(table::rows_map(after.ownership).dom().contains(k) <==> table::has_row(
            after.ownership,
            k,
        ));
    }
}

proof fn lemma_handed_over(
    m: Ledger,
    from: Seq<char>,
    root: Seq<char>,
    keys: Seq<Seq<char>>,
    key: Seq<char>,
)
    requires
        ledger::sound(m),
        from != root,
    ensures
        ({
            let after = ledger::adopt_files(m, from, root, keys);
            &&& keys.contains(key) && table::has_row(m.ownership, (from, key)) ==> table::has_row(
                after.ownership,
                (root, key),
            ) && !table::has_row(after.ownership, (from, key))
            &&& !table::has_row(m.ownership, (from, key)) ==> same_owner(after, m, root, key)
                && !table::has_row(after.ownership, (from, key))
            &&& !keys.contains(key) ==> same_owner(after, m, from, key)
        }),
    decreases keys.len(),
{
    if keys.len() > 0 {
        let less = keys.drop_last();
        let last = keys.last();
        lemma_handed_over(m, from, root, less, key);
        soundness::lemma_adopt_sound(m, from, root, less);
        let before = ledger::adopt_files(m, from, root, less);
        assert(keys =~= less.push(last));
        table::lemma_push_contains(less, last, key);
        if last != key {
            lemma_others_keep_their_files(before, from, root, last, (from, key));
            lemma_others_keep_their_files(before, from, root, last, (root, key));
        } else if table::has_row(before.ownership, (from, key)) {
            law_a_file_is_handed_over(before, from, root, key);
        }
    }
}

proof fn lemma_files_of(ownership: Owners, session: Seq<char>, key: Seq<char>)
    ensures
        table::has_row(ownership, (session, key)) ==> ledger::files_of(ownership, session).contains(
            key,
        ),
    decreases ownership.len(),
{
    reveal(Seq::filter);
    if ownership.len() > 0 && table::has_row(ownership, (session, key)) {
        let less = ownership.drop_last();
        let row = ownership.last();
        let some = ledger::files_of(less, session);
        lemma_files_of(less, session, key);
        let all = ledger::files_of(ownership, session);
        if row.0.0 == session {
            assert(all =~= some.push(row.0.1));
            table::lemma_push_contains(some, row.0.1, key);
        } else {
            assert(all =~= some);
        }
        let i = table::row_of(ownership, (session, key));
        assert(ownership[i].0 == (session, key));
        if i < less.len() {
            assert(less[i].0 == (session, key));
            assert(table::has_row(less, (session, key)));
        }
    }
}

/// A session that turns out to belong to a root hands every file that it owned
/// over to that root: afterwards it owns none, and the root owns them all.
pub proof fn law_everything_is_handed_over(
    m: Ledger,
    from: Seq<char>,
    root: Seq<char>,
    key: Seq<char>,
)
    requires
        ledger::sound(m),
        from != root,
    ensures
        ({
            let after = ledger::adopt(m, from, root);
            &&& !table::has_row(after.ownership, (from, key))
            &&& table::has_row(after.ownership, (root, key)) <==> table::has_row(
                m.ownership,
                (from, key),
            ) || table::has_row(m.ownership, (root, key))
            &&& !table::has_row(m.ownership, (from, key)) ==> same_owner(after, m, root, key)
        }),
{
    lemma_files_of(m.ownership, from, key);
    lemma_handed_over(m, from, root, ledger::files_of(m.ownership, from), key);
}

/// A record that has no history starts from the baseline, or from nothing; one
/// that has a history keeps it.
pub proof fn law_where_a_record_starts(m: Ledger, record: RecordView, other: RecordView)
    ensures
        m.sessions.dom().contains(record) ==> ledger::seed(m, record) == m,
        !m.sessions.dom().contains(record) && m.baseline is Some ==> ledger::seed(
            m,
            record,
        ).sessions[record] == m.baseline->Some_0,
        !m.sessions.dom().contains(record) && m.baseline is None ==> ledger::seed(
            m,
            record,
        ).sessions[record] == Map::<Seq<char>, u64>::empty(),
        other != record ==> ledger::lookup(ledger::seed(m, record).sessions, other)
            == ledger::lookup(m.sessions, other),
{
}

/// A staged report names, for each file it updates of which something is kept,
/// the oldest that is kept.
pub proof fn law_the_oldest_kept_is_the_one_shown(
    retained: Queues,
    record: RecordView,
    updates: Seq<(Seq<char>, Option<u64>)>,
    more: (Seq<char>, Option<u64>),
)
    ensures
        ledger::shown_from(retained, record, Seq::empty()).len() == 0,
        ledger::queue_at(retained, record, more.0).len() > 0 ==> ledger::shown_from(
            retained,
            record,
            updates.push(more),
        ) == ledger::shown_from(retained, record, updates).push(
            (more.0, ledger::queue_at(retained, record, more.0)[0].id),
        ),
        ledger::queue_at(retained, record, more.0).len() == 0 ==> ledger::shown_from(
            retained,
            record,
            updates.push(more),
        ) == ledger::shown_from(retained, record, updates),
{
    assert(updates.push(more).drop_last() =~= updates);
}

/// A connection that is attached for a caller registers it and protects its
/// record, and what any record was told stays.
pub proof fn law_attaching_registers_and_protects(
    m: Ledger,
    connection: u64,
    caller: CallerView,
    now: u64,
)
    ensures
        ({
            let after = ledger::attach(m, connection, caller, now);
            &&& after.roots.dom().contains(caller.record)
            &&& caller.root is Some && caller.record != RecordView::Session(
                crate::identity::connection_session(connection as nat),
            ) ==> after.roots[caller.record] == caller.root
            &&& after.lifetime.connections.dom().contains(connection)
            &&& after.lifetime.connections[connection].contains(caller.record)
            &&& after.lifetime.records.dom().contains(caller.record)
            &&& after.sessions == m.sessions
        }),
{
    let known = ledger::connecting(connection, caller);
    law_a_caller_is_registered(m, known, caller.record);
    law_a_nameless_connection_is_its_own_root(connection, caller);
}

/// A hook that speaks for a caller registers it and counts as use of its record.
pub proof fn law_a_hook_registers_and_counts_as_use(m: Ledger, caller: CallerView, now: u64)
    ensures
        ({
            let after = ledger::touch_hook(m, caller, now);
            &&& after.roots.dom().contains(caller.record)
            &&& caller.root is Some ==> after.roots[caller.record] == caller.root
            &&& after.lifetime.records.dom().contains(caller.record)
            &&& !after.lifetime.records[caller.record].ended
                ==> after.lifetime.records[caller.record].last == now
            &&& after.lifetime.records[caller.record].root == after.roots[caller.record]
                || after.roots[caller.record] is None
            &&& after.sessions == m.sessions
        }),
{
    law_a_caller_is_registered(m, caller, caller.record);
}

/// A closed connection's own record, which no host named, is gone at once; what
/// the others were told stays for as long as they live.
pub proof fn law_a_closed_connection_takes_its_own_record(
    m: Ledger,
    connection: u64,
    now: u64,
    other: RecordView,
)
    ensures
        ({
            let own = RecordView::Session(
                crate::identity::connection_session(connection as nat),
            );
            let after = ledger::close(m, connection, now);
            &&& !after.sessions.dom().contains(own)
            &&& !after.retained.dom().contains(own)
            &&& !after.roots.dom().contains(own)
            &&& !after.lifetime.connections.dom().contains(connection)
            &&& after.sessions.dom().contains(other) ==> m.sessions.dom().contains(other)
                && after.sessions[other] == m.sessions[other]
            &&& other != own && m.sessions.dom().contains(other)
                && !m.lifetime.records.dom().contains(other) ==> after.sessions.dom().contains(
                other,
            )
        }),
{
}

/// The end of a root ends what its unprotected records were told; records of
/// other roots that are not over keep it.
pub proof fn law_an_ended_root_is_forgotten(
    m: Ledger,
    root: Seq<char>,
    now: u64,
    record: RecordView,
)
    requires
        m.lifetime.records.dom().contains(record),
    ensures
        ({
            let life = m.lifetime.records[record];
            let after = ledger::end_root(m, root, now);
            let of_root = life.root == Some(root) || record == RecordView::Session(root);
            &&& of_root && !ledger::protected(m.lifetime.connections, record, life.root) ==> {
                &&& !after.sessions.dom().contains(record)
                &&& !after.retained.dom().contains(record)
                &&& !after.roots.dom().contains(record)
            }
            &&& ledger::protected(m.lifetime.connections, record, life.root)
                ==> ledger::lookup(after.sessions, record) == ledger::lookup(m.sessions, record)
        }),
{
    let mid = ledger::end_root_life(m.lifetime, root, now);
    law_a_root_ends_with_its_records(m.lifetime, root, now, record);
    assert(mid.records[record].root == m.lifetime.records[record].root);
    assert(mid.connections == m.lifetime.connections);
}

/// Of the reports that were shown, one is taken off exactly where it is still
/// the oldest of its file.
pub proof fn law_only_the_shown_report_is_taken_off(
    m: Ledger,
    record: RecordView,
    snapshots: Seq<(Seq<char>, u64)>,
    more: (Seq<char>, u64),
)
    ensures
        ({
            let before = ledger::pop_named(m, record, snapshots);
            let after = ledger::pop_named(m, record, snapshots.push(more));
            let queue = ledger::queue_at(before.retained, record, more.0);
            &&& queue.len() > 0 && queue[0].id == more.1 ==> after == ledger::pop_report(
                before,
                record,
                more.0,
            )
            &&& queue.len() == 0 || queue[0].id != more.1 ==> after == before
        }),
        ledger::pop_named(m, record, Seq::empty()) == m,
{
    assert(snapshots.push(more).drop_last() =~= snapshots);
}

/// Where two cycles of a file become one, what is kept in the first is kept in
/// the other from then on; nothing else of what is kept changes.
pub proof fn law_kept_reports_follow_their_cycle(
    retained: Queues,
    key: Seq<char>,
    from: u64,
    to: u64,
    w: RecordView,
    k: Seq<char>,
    i: int,
)
    requires
        0 <= i < ledger::queue_at(retained, w, k).len(),
    ensures
        ({
            let before = ledger::queue_at(retained, w, k)[i];
            let after = ledger::queue_at(ledger::restamp(retained, key, from, to), w, k)[i];
            &&& ledger::queue_at(ledger::restamp(retained, key, from, to), w, k).len()
                == ledger::queue_at(retained, w, k).len()
            &&& after.generation == if k == key && before.generation == from {
                to
            } else {
                before.generation
            }
            &&& after.file == before.file
            &&& after.hash == before.hash
            &&& after.id == before.id
            &&& after.root == before.root
        }),
{
}

/// Nothing expires before the next deadline, and once it has come something
/// does. Where there is none, nothing ever expires.
pub proof fn law_something_expires_at_the_next_deadline(
    l: LifetimeView,
    next: Option<int>,
    now: u64,
)
    requires
        ledger::is_next_deadline(l, next),
    ensures
        next is None || now < next->Some_0 ==> ledger::expire_life(l, now).records == l.records,
        next is Some && now >= next->Some_0 ==> exists|w: RecordView|
            l.records.dom().contains(w) && !#[trigger] ledger::expire_life(
                l,
                now,
            ).records.dom().contains(w),
{
    let after = ledger::expire_life(l, now);
    if next is None || now < next->Some_0 {
        assert forall|w: RecordView| #[trigger] l.records.dom().contains(w) implies
            after.records.dom().contains(w) && after.records[w] == l.records[w] by {
            law_only_what_is_over_expires(l, now, w);
            let _ = ledger::deadline(l, w);
        }
        assert(after.records =~= l.records);
    } else {
        let w = choose|w: RecordView|
            l.records.dom().contains(w) && #[trigger] ledger::deadline(l, w) == next;
        law_only_what_is_over_expires(l, now, w);
        assert(!after.records.dom().contains(w));
    }
}

/// Nothing is left of a record that ended: no history, nothing staged or kept,
/// no root, no life, no connection that speaks for it, and no file that it
/// counts as a writer of.
pub proof fn law_an_ended_record_is_forgotten(
    m: Ledger,
    gone: Set<RecordView>,
    record: RecordView,
    connection: u64,
    i: int,
)
    requires
        gone.contains(record),
    ensures
        ({
            let after = ledger::end_records(m, gone);
            &&& !after.sessions.dom().contains(record)
            &&& !after.pending.dom().contains(record)
            &&& !after.roots.dom().contains(record)
            &&& !after.retained.dom().contains(record)
            &&& !after.lifetime.records.dom().contains(record)
            &&& after.lifetime.connections.dom() == m.lifetime.connections.dom()
            &&& after.lifetime.connections.dom().contains(connection)
                ==> !after.lifetime.connections[connection].contains(record)
            &&& 0 <= i < after.ownership.len() ==> !after.ownership[i].1.writers.contains(record)
        }),
{
    let after = ledger::end_records(m, gone);
    if 0 <= i < after.ownership.len() {
        let row = after.ownership[i];
        assert(ledger::without_writers(m.ownership, gone).contains(row));
        law_who_is_left_a_writer(m.ownership, gone, row);
    }
}

/// A file that is left with a writer keeps all that it has but those who are
/// gone, and no other file is left.
pub proof fn law_who_is_left_a_writer(
    owners: Owners,
    gone: Set<RecordView>,
    row: ((Seq<char>, Seq<char>), OwnerView),
)
    ensures
        ledger::without_writers(owners, gone).contains(row) <==> {
            &&& row.1.writers != Set::<RecordView>::empty()
            &&& exists|j: int|
                0 <= j < owners.len() && (#[trigger] owners[j]).0 == row.0 && row.1 == (OwnerView {
                    writers: owners[j].1.writers.difference(gone),
                    ..owners[j].1
                })
        },
    decreases owners.len(),
{
    reveal(Seq::filter);
    let left = ledger::without_writers(owners, gone);
    if owners.len() > 0 {
        let init = owners.drop_last();
        let last = owners.last();
        let cut = (last.0, OwnerView { writers: last.1.writers.difference(gone), ..last.1 });
        law_who_is_left_a_writer(init, gone, row);
        lemma_one_more_owner(init, last, gone);
        assert(init.push(last) =~= owners);
        let before = ledger::without_writers(init, gone);
        assert(forall|j: int| 0 <= j < init.len() ==> #[trigger] owners[j] == init[j]);
        if left.contains(row) {
            if before.contains(row) {
                let j = choose|j: int|
                    0 <= j < init.len() && (#[trigger] init[j]).0 == row.0 && row.1 == (OwnerView {
                        writers: init[j].1.writers.difference(gone),
                        ..init[j].1
                    });
                assert(owners[j].0 == row.0);
            } else {
                assert(row == cut);
                assert(owners[owners.len() - 1].0 == row.0);
            }
        }
        if row.1.writers != Set::<RecordView>::empty() && exists|j: int|
            0 <= j < owners.len() && (#[trigger] owners[j]).0 == row.0 && row.1 == (OwnerView {
                writers: owners[j].1.writers.difference(gone),
                ..owners[j].1
            }) {
            let j = choose|j: int|
                0 <= j < owners.len() && (#[trigger] owners[j]).0 == row.0 && row.1 == (OwnerView {
                    writers: owners[j].1.writers.difference(gone),
                    ..owners[j].1
                });
            if j < init.len() {
                assert(init[j].0 == row.0);
                assert(before.contains(row));
                let k = choose|k: int| 0 <= k < before.len() && before[k] == row;
                assert(left[k] == row);
            } else {
                assert(row == cut);
                assert(left.last() == row);
            }
        }
    }
}

/// One file more: it is left where it has a writer left.
proof fn lemma_one_more_owner(
    init: Owners,
    last: ((Seq<char>, Seq<char>), OwnerView),
    gone: Set<RecordView>,
)
    ensures
        ({
            let before = ledger::without_writers(init, gone);
            let cut = (last.0, OwnerView { writers: last.1.writers.difference(gone), ..last.1 });
            ledger::without_writers(init.push(last), gone) == if cut.1.writers != Set::<
                RecordView,
            >::empty() {
                before.push(cut)
            } else {
                before
            }
        }),
{
    reveal(Seq::filter);
    let f = |row: ((Seq<char>, Seq<char>), OwnerView)|
        (row.0, OwnerView { writers: row.1.writers.difference(gone), ..row.1 });
    assert(init.push(last).map_values(f).drop_last() =~= init.map_values(f));
    assert(init.push(last).map_values(f).last() == f(last));
}


/// Where a file is handed over to a root that owned it too, what is kept in the
/// cycle of that root follows the cycle that goes on where the two were delivered
/// alike; otherwise nothing that is kept changes.
pub proof fn law_kept_reports_follow_a_hand_over(
    m: Ledger,
    from: Seq<char>,
    root: Seq<char>,
    key: Seq<char>,
    w: RecordView,
    k: Seq<char>,
    i: int,
)
    requires
        ledger::sound(m),
        from != root,
        table::has_row(m.ownership, (from, key)),
        0 <= i < ledger::queue_at(m.retained, w, k).len(),
    ensures
        ({
            let after = ledger::adopt_file(m, from, root, key);
            let owners = table::rows_map(m.ownership);
            let own = owners[(from, key)];
            let theirs = owners[(root, key)];
            let had = table::has_row(m.ownership, (root, key));
            let report = ledger::queue_at(m.retained, w, k)[i];
            &&& !had || own.delivered != theirs.delivered ==> after.retained == m.retained
            &&& had && own.delivered == theirs.delivered ==> ledger::queue_at(
                after.retained,
                w,
                k,
            )[i].generation == if k == key && report.generation == theirs.generation {
                own.generation
            } else {
                report.generation
            }
        }),
{
    let rows = m.ownership;
    let a = (from, key);
    let b = (root, key);
    table::lemma_rows_map(rows);
    table::lemma_drop_row(rows, a);
    let owner = rows[table::row_of(rows, a)].1;
    let rest = table::drop_row(rows, a);
    table::lemma_rows_map(rest);
    assert(table::rows_map(rows).dom().contains(a));
    assert(table::rows_map(rows).dom().contains(b) <==> table::has_row(rows, b));
    assert(table::rows_map(rest).dom().contains(b) <==> table::has_row(rest, b));
    assert(table::has_row(rest, b) <==> table::has_row(rows, b));
    if table::has_row(rest, b) {
        let existing = rest[table::row_of(rest, b)].1;
        assert(existing == table::rows_map(rows)[b]);
        law_kept_reports_follow_their_cycle(
            m.retained,
            key,
            existing.generation,
            owner.generation,
            w,
            k,
            i,
        );
    }
}

/// A root that has ended stays known exactly as long as one of its records is
/// left.
pub proof fn law_an_ended_root_is_known_while_it_has_records(
    l: LifetimeView,
    now: u64,
    root: Seq<char>,
)
    ensures
        ({
            let after = ledger::expire_life(l, now);
            after.ended_roots.contains(root) <==> l.ended_roots.contains(root) && exists|
                r: RecordView,
            |
                after.records.dom().contains(r) && (#[trigger] after.records[r]).root == Some(root)
        }),
{
}

/// Dropping what a record was told already delivers no cycle but that of a
/// report that says so, and keeps of every file just what comes after those
/// reports.
pub proof fn law_only_what_was_told_is_dropped(
    m: Ledger,
    record: RecordView,
    k: Seq<char>,
    i: int,
)
    requires
        m.sessions.dom().contains(record),
        0 <= i < m.ownership.len(),
    ensures
        ({
            let after = ledger::discard(m, record);
            let told = ledger::lookup(m.sessions[record], m.ownership[i].0.1);
            let kept = ledger::queue_at(m.retained, record, m.ownership[i].0.1);
            &&& after.ownership.len() == m.ownership.len()
            &&& after.ownership[i].0 == m.ownership[i].0
            &&& after.ownership[i].1.writers == m.ownership[i].1.writers
            &&& after.ownership[i].1.generation == m.ownership[i].1.generation
            &&& m.ownership[i].1.delivered ==> after.ownership[i].1.delivered
            &&& after.ownership[i].1.delivered && !m.ownership[i].1.delivered ==> exists|j: int|
                0 <= j < kept.len() && (#[trigger] kept[j]).hash == told && kept[j].generation
                    == m.ownership[i].1.generation
            &&& ledger::queue_at(after.retained, record, k) == ledger::queue_at(
                m.retained,
                record,
                k,
            ).skip(
                ledger::consumed(
                    ledger::queue_at(m.retained, record, k),
                    ledger::lookup(m.sessions[record], k),
                ) as int,
            )
        }),
{
    let after = ledger::discard(m, record);
    let row = m.ownership[i];
    let told = ledger::lookup(m.sessions[record], row.0.1);
    let kept = ledger::queue_at(m.retained, record, row.0.1);
    law_what_was_told_is_spent(kept, told);
    let queue = ledger::queue_at(m.retained, record, k);
    law_what_was_told_is_spent(queue, ledger::lookup(m.sessions[record], k));
    if ledger::any_spent(m, record) {
        if ledger::spent_delivers(m, record, row) {
            let j = choose|j: int|
                0 <= j < ledger::spent(m, record, row.0.1) && ledger::delivers(
                    m,
                    record,
                    #[trigger] ledger::queue_at(m.retained, record, row.0.1)[j],
                    row,
                );
            assert(kept[j].hash == told);
        }
        let files = m.retained[record];
        let cut = m.retained.insert(
            record,
            Map::new(
                |k: Seq<char>| files.dom().contains(k),
                |k: Seq<char>| files[k].skip(ledger::spent(m, record, k) as int),
            ),
        );
        assert(after.retained == ledger::tidy(cut, record));
        law_tidying_loses_nothing(cut, record, record, k);
        if !files.dom().contains(k) {
            assert(queue.skip(0) =~= queue);
        }
    } else {
        assert(ledger::spent(m, record, k) == 0) by {
            if m.retained.dom().contains(record) && m.retained[record].dom().contains(k) {
                assert(!(ledger::spent(m, record, k) > 0));
            }
        }
        assert(queue.skip(0) =~= queue);
    }
}

} // verus!
