//! What diagnostics delivery means: the state it keeps, and what each
//! operation makes of that state.

use crate::config::{DiagnosticsConfig, SeverityFloor};
use crate::diagnostics;
use crate::diagnostics::DiagnosticView;
use crate::encoding::PositionEncoding;
use crate::identity::{CallerView, RecordView};
use crate::table;
use crate::text;
use vstd::prelude::*;

verus! {

/// One file's current diagnostics.
pub struct EntryView {
    /// The file's key.
    pub key: Seq<char>,
    /// What its server reports.
    pub diagnostics: Seq<DiagnosticView>,
    /// The floor its server answers to.
    pub floor: SeverityFloor,
}

impl EntryView {
    /// The hash of what the floor shows.
    pub open spec fn hash(self) -> Option<u64> {
        diagnostics::hash_of(self.diagnostics, self.floor)
    }

    /// What the floor shows.
    pub open spec fn shown(self) -> Seq<DiagnosticView> {
        diagnostics::visible(self.diagnostics, self.floor)
    }
}

/// One file that changed.
pub struct ChangedView {
    /// The file's key.
    pub key: Seq<char>,
    /// What is delivered of it.
    pub diagnostics: Seq<DiagnosticView>,
    /// How many shown diagnostics are not delivered.
    pub omitted: int,
}

/// What one flush found.
pub struct ReportView {
    /// Files that changed.
    pub changed: Seq<ChangedView>,
    /// Files that no longer show anything.
    pub cleared: Seq<Seq<char>>,
    /// How many files were deferred.
    pub omitted: int,
}

/// The text that a report's ranges count in.
pub struct SourceView {
    /// The document.
    pub uri: Seq<char>,
    /// The units its columns count.
    pub encoding: PositionEncoding,
    /// Its text, when known.
    pub text: Option<Seq<char>>,
}

/// Who wrote a file in its current cycle of writing and delivering.
pub struct OwnerView {
    /// The cycle.
    pub generation: u64,
    /// Whether a report of the cycle has been acknowledged.
    pub delivered: bool,
    /// The writers.
    pub writers: Set<RecordView>,
}

/// A report kept for a writer until the writer acknowledges it.
pub struct RetainedView {
    /// Its number.
    pub id: u64,
    /// The root it was kept under.
    pub root: Seq<char>,
    /// The cycle it was kept in.
    pub generation: u64,
    /// The file as it was.
    pub file: EntryView,
    /// The hash of what the file showed.
    pub hash: Option<u64>,
    /// The text that its ranges count in.
    pub source: Option<SourceView>,
}

/// The record changes that a staged report implies.
pub struct PendingView {
    /// The token that acknowledges it.
    pub token: u64,
    /// Per file the hash to record, or `None` to forget the file.
    pub updates: Seq<(Seq<char>, Option<u64>)>,
    /// Per file the number of the kept report that was shown.
    pub snapshots: Seq<(Seq<char>, u64)>,
}

/// What has been delivered, per file.
pub type Record = Map<Seq<char>, u64>;

/// Kept reports, per record and file, oldest first.
pub type Queues = Map<RecordView, Map<Seq<char>, Seq<RetainedView>>>;

/// Owners by root session and file, in the order in which they claimed.
pub type Owners = Seq<((Seq<char>, Seq<char>), OwnerView)>;

/// What is known of one record's activity.
pub struct LifeView {
    /// The record's root, when known.
    pub root: Option<Seq<char>>,
    /// The last activity while nothing protected the record.
    pub last: u64,
    /// Whether its root has ended.
    pub ended: bool,
}

/// Which records are alive, and which connections keep them so.
pub struct LifetimeView {
    /// How long an unprotected record stays, in milliseconds.
    pub grace_ms: u64,
    /// The records.
    pub records: Map<RecordView, LifeView>,
    /// The records each open connection speaks for.
    pub connections: Map<u64, Set<RecordView>>,
    /// Roots that have ended.
    pub ended_roots: Set<Seq<char>>,
}

/// Everything that delivery keeps.
pub struct Ledger {
    /// The caps.
    pub config: DiagnosticsConfig,
    /// What each record has been told.
    pub sessions: Map<RecordView, Record>,
    /// What a new record starts out believing.
    pub baseline: Option<Record>,
    /// The staged report of each record.
    pub pending: Map<RecordView, PendingView>,
    /// The last token given out.
    pub next_token: u64,
    /// The text of each file as last captured.
    pub sources: Map<Seq<char>, SourceView>,
    /// The registered callers and their roots.
    pub roots: Map<RecordView, Option<Seq<char>>>,
    /// Who owns which file.
    pub ownership: Owners,
    /// The reports kept for writers.
    pub retained: Queues,
    /// The last cycle begun.
    pub next_generation: u64,
    /// The last number given to a kept report.
    pub next_snapshot: u64,
    /// Which records are alive.
    pub lifetime: LifetimeView,
}

/// The value under `k`, when there is one.
pub open spec fn lookup<A, B>(m: Map<A, B>, k: A) -> Option<B> {
    if m.dom().contains(k) {
        Some(m[k])
    } else {
        None
    }
}

/// The caps of `config` on one file.
pub open spec fn capped(config: DiagnosticsConfig, shown: Seq<DiagnosticView>) -> Seq<DiagnosticView> {
    if config.max_per_file == 0 || shown.len() <= config.max_per_file {
        shown
    } else {
        shown.take(config.max_per_file as int)
    }
}

/// A pass over files against a record: the report so far, the record changes
/// it implies, and how much of the budget is left, `None` for no limit.
pub struct DiffView {
    /// The report.
    pub report: ReportView,
    /// The record changes.
    pub updates: Seq<(Seq<char>, Option<u64>)>,
    /// The budget.
    pub budget: Option<int>,
}

/// A pass that has seen nothing.
pub open spec fn diff_start(config: DiagnosticsConfig) -> DiffView {
    DiffView {
        report: ReportView { changed: Seq::empty(), cleared: Seq::empty(), omitted: 0 },
        updates: Seq::empty(),
        budget: if config.max_total > 0 {
            Some(config.max_total as int)
        } else {
            None
        },
    }
}

/// The budget after spending `cost` of it.
pub open spec fn spend(budget: Option<int>, cost: int) -> Option<int> {
    match budget {
        Some(left) => Some(left - cost),
        None => None,
    }
}

/// A file that the pass defers: the record keeps what it has.
pub open spec fn diff_defer(s: DiffView) -> DiffView {
    DiffView { report: ReportView { omitted: s.report.omitted + 1, ..s.report }, ..s }
}

/// A file that the pass delivers at `hash`, for `cost`.
pub open spec fn diff_deliver(s: DiffView, file: ChangedView, hash: u64, cost: int) -> DiffView {
    DiffView {
        report: ReportView { changed: s.report.changed.push(file), ..s.report },
        updates: s.updates.push((file.key, Some(hash))),
        budget: spend(s.budget, cost),
    }
}

/// One file more.
///
/// A file whose hash is the recorded one is passed over. One that was recorded
/// and shows nothing is cleared, at a cost of one, unless it is only muted:
/// then it is forgotten without a word. One that shows something else is
/// delivered, capped, if the budget can take all of it; if not even a whole
/// budget could, it is cut to the budget; otherwise it waits.
pub open spec fn diff_step(
    config: DiagnosticsConfig,
    record: Record,
    s: DiffView,
    e: EntryView,
) -> DiffView {
    if e.hash() == lookup(record, e.key) {
        s
    } else if let Some(hash) = e.hash() {
        let all = e.shown();
        let kept = capped(config, all);
        let dropped = all.len() - kept.len();
        match s.budget {
            Some(left) if kept.len() > left => if left == config.max_total {
                diff_deliver(
                    s,
                    ChangedView {
                        key: e.key,
                        diagnostics: kept.take(left),
                        omitted: dropped + kept.len() - left,
                    },
                    hash,
                    left,
                )
            } else {
                diff_defer(s)
            },
            _ => diff_deliver(
                s,
                ChangedView { key: e.key, diagnostics: kept, omitted: dropped },
                hash,
                kept.len() as int,
            ),
        }
    } else if e.floor == SeverityFloor::Off {
        DiffView { updates: s.updates.push((e.key, None)), ..s }
    } else if s.budget == Some(0int) {
        diff_defer(s)
    } else {
        DiffView {
            report: ReportView { cleared: s.report.cleared.push(e.key), ..s.report },
            updates: s.updates.push((e.key, None)),
            budget: spend(s.budget, 1),
        }
    }
}

/// A pass over `entries` in their order.
pub open spec fn diff_all(
    config: DiagnosticsConfig,
    record: Record,
    entries: Seq<EntryView>,
) -> DiffView
    decreases entries.len(),
{
    if entries.len() == 0 {
        diff_start(config)
    } else {
        diff_step(config, record, diff_all(config, record, entries.drop_last()), entries.last())
    }
}

/// `record` after `updates`, in their order.
pub open spec fn apply_updates(
    record: Record,
    updates: Seq<(Seq<char>, Option<u64>)>,
) -> Record
    decreases updates.len(),
{
    if updates.len() == 0 {
        record
    } else {
        let before = apply_updates(record, updates.drop_last());
        match updates.last().1 {
            Some(hash) => before.insert(updates.last().0, hash),
            None => before.remove(updates.last().0),
        }
    }
}

/// The files kept for `w`.
pub open spec fn files_at(retained: Queues, w: RecordView) -> Map<Seq<char>, Seq<RetainedView>> {
    if retained.dom().contains(w) {
        retained[w]
    } else {
        Map::empty()
    }
}

/// The reports kept for `w` of file `key`.
pub open spec fn queue_at(retained: Queues, w: RecordView, key: Seq<char>) -> Seq<RetainedView> {
    if files_at(retained, w).dom().contains(key) {
        files_at(retained, w)[key]
    } else {
        Seq::empty()
    }
}

/// `retained` with `queue` as what is kept for `w` of file `key`.
pub open spec fn set_queue(
    retained: Queues,
    w: RecordView,
    key: Seq<char>,
    queue: Seq<RetainedView>,
) -> Queues {
    retained.insert(w, files_at(retained, w).insert(key, queue))
}

/// What record `w` has been told of file `key`: its own history, or what the
/// baseline says while it has none.
pub open spec fn committed(m: Ledger, w: RecordView, key: Seq<char>) -> Option<u64> {
    match lookup(m.sessions, w) {
        Some(record) => lookup(record, key),
        None => match m.baseline {
            Some(record) => lookup(record, key),
            None => None,
        },
    }
}

/// The kept reports after a new one, which is kept unless the newest kept one,
/// or without any what was told, shows the same.
pub open spec fn offered(
    queue: Seq<RetainedView>,
    told: Option<u64>,
    report: RetainedView,
) -> Seq<RetainedView> {
    let previous = if queue.len() > 0 {
        queue.last().hash
    } else {
        told
    };
    if previous != report.hash {
        queue.push(report)
    } else {
        queue
    }
}

/// A root and the writers to keep a report for.
pub struct Recipient {
    /// The root.
    pub root: Seq<char>,
    /// The cycle.
    pub generation: u64,
    /// The writers.
    pub writers: Set<RecordView>,
}

/// The owners of file `key`, in the order in which they claimed.
pub open spec fn owners_of(ownership: Owners, key: Seq<char>) -> Seq<Recipient> {
    ownership.filter(|row: ((Seq<char>, Seq<char>), OwnerView)| row.0.1 == key).map_values(
        |row: ((Seq<char>, Seq<char>), OwnerView)|
            Recipient {
                root: row.0.0,
                generation: row.1.generation,
                writers: row.1.writers,
            },
    )
}

/// A registered root session reads what none of its agents owns.
pub open spec fn falls_back(m: Ledger, record: RecordView, key: Seq<char>) -> bool {
    match lookup(m.roots, record) {
        Some(Some(root)) => record == RecordView::Session(root) && !table::has_row(
            m.ownership,
            (root, key),
        ),
        _ => false,
    }
}

/// Whom a report of file `key` is kept for when `reader` asks.
pub open spec fn recipients(m: Ledger, reader: Option<RecordView>, key: Seq<char>) -> Seq<Recipient> {
    owners_of(m.ownership, key) + match reader {
        Some(record) if falls_back(m, record, key) => seq![
            Recipient {
                root: record.session(),
                generation: 0,
                writers: Set::empty().insert(record),
            },
        ],
        _ => Seq::empty(),
    }
}

/// The report of `e` kept under number `id`.
pub open spec fn report_of(m: Ledger, e: EntryView, to: Recipient, id: u64) -> RetainedView {
    RetainedView {
        id,
        root: to.root,
        generation: to.generation,
        file: e,
        hash: e.hash(),
        source: lookup(m.sources, e.key),
    }
}

/// `retained` after `report` has been offered to each of `writers`.
pub open spec fn offer_writers(
    m: Ledger,
    retained: Queues,
    writers: Set<RecordView>,
    report: RetainedView,
) -> Queues {
    let key = report.file.key;
    Map::new(
        |w: RecordView| retained.dom().contains(w) || writers.contains(w),
        |w: RecordView|
            if writers.contains(w) {
                files_at(retained, w).insert(
                    key,
                    offered(queue_at(retained, w, key), committed(m, w, key), report),
                )
            } else {
                retained[w]
            },
    )
}

/// Keep a report of `e` for each of `to`, in order, under a number each.
pub open spec fn observe_recipients(m: Ledger, e: EntryView, to: Seq<Recipient>) -> Ledger
    decreases to.len(),
{
    if to.len() == 0 {
        m
    } else {
        let before = observe_recipients(m, e, to.drop_last());
        let id = (before.next_snapshot + 1) as u64;
        Ledger {
            next_snapshot: id,
            retained: offer_writers(
                before,
                before.retained,
                to.last().writers,
                report_of(before, e, to.last(), id),
            ),
            ..before
        }
    }
}

/// Keep what the writers of each of `entries` are owed, and what `reader`
/// falls back to.
pub open spec fn observe(m: Ledger, reader: Option<RecordView>, entries: Seq<EntryView>) -> Ledger
    decreases entries.len(),
{
    if entries.len() == 0 {
        m
    } else {
        let before = observe(m, reader, entries.drop_last());
        observe_recipients(before, entries.last(), recipients(before, reader, entries.last().key))
    }
}

/// How many of the oldest reports in `queue` show what was already told.
pub open spec fn consumed(queue: Seq<RetainedView>, told: Option<u64>) -> nat
    decreases queue.len(),
{
    if queue.len() == 0 || queue[0].hash != told {
        0
    } else {
        1 + consumed(queue.drop_first(), told)
    }
}

/// The root under which `record` owns what it writes.
pub open spec fn owning_root(m: Ledger, record: RecordView, otherwise: Seq<char>) -> Seq<char> {
    match lookup(m.roots, record) {
        Some(Some(root)) => root,
        _ => otherwise,
    }
}

/// Whether `report`, once told to `record`, delivers the cycle of the owner in
/// `row`: the report is of that cycle, and its file is not muted.
pub open spec fn delivers(
    m: Ledger,
    record: RecordView,
    report: RetainedView,
    row: ((Seq<char>, Seq<char>), OwnerView),
) -> bool {
    &&& row.0 == (owning_root(m, record, report.root), report.file.key)
    &&& row.1.generation == report.generation
    &&& report.file.floor != SeverityFloor::Off
}

/// The row of an owner whose cycle has been delivered.
pub open spec fn delivered_row(
    row: ((Seq<char>, Seq<char>), OwnerView),
) -> ((Seq<char>, Seq<char>), OwnerView) {
    (row.0, OwnerView { delivered: true, ..row.1 })
}

/// `ownership` after `record` has been told of `report`.
pub open spec fn mark_delivered(
    m: Ledger,
    ownership: Owners,
    record: RecordView,
    report: RetainedView,
) -> Owners {
    ownership.map_values(
        |row: ((Seq<char>, Seq<char>), OwnerView)|
            if delivers(m, record, report, row) {
                delivered_row(row)
            } else {
                row
            },
    )
}

/// Take the oldest report kept for `record` of file `key`.
pub open spec fn pop_report(m: Ledger, record: RecordView, key: Seq<char>) -> Ledger {
    let queue = queue_at(m.retained, record, key);
    Ledger {
        retained: set_queue(m.retained, record, key, queue.drop_first()),
        ownership: mark_delivered(m, m.ownership, record, queue[0]),
        ..m
    }
}

/// Forget the files of `record` that have no reports left, and the record when
/// it has no files left.
pub open spec fn tidy(retained: Queues, record: RecordView) -> Queues {
    if retained.dom().contains(record) {
        let files = retained[record];
        let left = Map::new(
            |k: Seq<char>| files.dom().contains(k) && files[k].len() > 0,
            |k: Seq<char>| files[k],
        );
        if left.dom() =~= Set::<Seq<char>>::empty() {
            retained.remove(record)
        } else {
            retained.insert(record, left)
        }
    } else {
        retained
    }
}

/// Take the kept reports that `snapshots` name, as far as each is still the
/// oldest of its file.
pub open spec fn pop_named(
    m: Ledger,
    record: RecordView,
    snapshots: Seq<(Seq<char>, u64)>,
) -> Ledger
    decreases snapshots.len(),
{
    if snapshots.len() == 0 {
        m
    } else {
        let before = pop_named(m, record, snapshots.drop_last());
        let (key, id) = snapshots.last();
        let queue = queue_at(before.retained, record, key);
        if queue.len() > 0 && queue[0].id == id {
            pop_report(before, record, key)
        } else {
            before
        }
    }
}

/// Record that `record` has been told of the reports that `snapshots` name.
pub open spec fn commit_named(
    m: Ledger,
    record: RecordView,
    snapshots: Seq<(Seq<char>, u64)>,
) -> Ledger {
    if m.retained.dom().contains(record) {
        let after = pop_named(m, record, snapshots);
        Ledger { retained: tidy(after.retained, record), ..after }
    } else {
        m
    }
}

/// How many of the reports kept for `record` of file `key` show what the record
/// was already told.
pub open spec fn spent(m: Ledger, record: RecordView, key: Seq<char>) -> nat {
    consumed(queue_at(m.retained, record, key), lookup(m.sessions[record], key))
}

/// Whether any report kept for `record` shows what it was already told.
pub open spec fn any_spent(m: Ledger, record: RecordView) -> bool {
    &&& m.sessions.dom().contains(record)
    &&& m.retained.dom().contains(record)
    &&& exists|key: Seq<char>|
        m.retained[record].dom().contains(key) && #[trigger] spent(m, record, key) > 0
}

/// Whether one of the spent reports of `record` delivers the owner in `row`.
pub open spec fn spent_delivers(
    m: Ledger,
    record: RecordView,
    row: ((Seq<char>, Seq<char>), OwnerView),
) -> bool {
    exists|j: int|
        0 <= j < spent(m, record, row.0.1) && delivers(
            m,
            record,
            #[trigger] queue_at(m.retained, record, row.0.1)[j],
            row,
        )
}

/// Take every report kept for `record` that leads its file's queue and shows
/// what the record was already told.
pub open spec fn discard(m: Ledger, record: RecordView) -> Ledger {
    if any_spent(m, record) {
        let files = m.retained[record];
        Ledger {
            retained: tidy(
                m.retained.insert(
                    record,
                    Map::new(
                        |k: Seq<char>| files.dom().contains(k),
                        |k: Seq<char>| files[k].skip(spent(m, record, k) as int),
                    ),
                ),
                record,
            ),
            ownership: m.ownership.map_values(
                |row: ((Seq<char>, Seq<char>), OwnerView)|
                    if spent_delivers(m, record, row) {
                        delivered_row(row)
                    } else {
                        row
                    },
            ),
            ..m
        }
    } else {
        m
    }
}

/// Whether `record` reads the current state of file `key`: an unregistered
/// record reads everything, a root session what none of its agents owns.
pub open spec fn admitted(m: Ledger, record: RecordView, key: Seq<char>) -> bool {
    !m.roots.dom().contains(record) || falls_back(m, record, key)
}

/// Of `entries`, what `record` reads the current state of; of two entries for
/// one file, the later.
pub open spec fn current_for(
    m: Ledger,
    record: RecordView,
    entries: Seq<EntryView>,
) -> Map<Seq<char>, EntryView>
    decreases entries.len(),
{
    if entries.len() == 0 {
        Map::empty()
    } else {
        let before = current_for(m, record, entries.drop_last());
        if admitted(m, record, entries.last().key) {
            before.insert(entries.last().key, entries.last())
        } else {
            before
        }
    }
}

/// What is routed to `record`: the oldest report kept for it, and where none is,
/// the current state.
pub open spec fn routed(
    m: Ledger,
    record: RecordView,
    entries: Seq<EntryView>,
) -> Map<Seq<char>, EntryView> {
    let current = current_for(m, record, entries);
    Map::new(
        |k: Seq<char>|
            current.dom().contains(k) || queue_at(m.retained, record, k).len() > 0,
        |k: Seq<char>|
            if queue_at(m.retained, record, k).len() > 0 {
                queue_at(m.retained, record, k)[0].file
            } else {
                current[k]
            },
    )
}

/// Whether `list` holds the files of `files`, in the order of their keys.
pub open spec fn in_key_order(files: Map<Seq<char>, EntryView>, list: Seq<EntryView>) -> bool {
    &&& forall|i: int, j: int|
        0 <= i < j < list.len() ==> (#[trigger] list[i]).key != (#[trigger] list[j]).key
            && text::text_leq(list[i].key, list[j].key)
    &&& forall|i: int|
        0 <= i < list.len() ==> files.dom().contains((#[trigger] list[i]).key)
            && files[list[i].key] == list[i]
    &&& forall|k: Seq<char>| #[trigger]
        files.dom().contains(k) ==> exists|i: int|
            0 <= i < list.len() && (#[trigger] list[i]).key == k
}

/// What is routed to `record`, in the order of the files' keys.
pub open spec fn route(m: Ledger, record: RecordView, entries: Seq<EntryView>) -> Seq<EntryView> {
    choose|list: Seq<EntryView>| in_key_order(routed(m, record, entries), list)
}

/// What a report for `record` passes over, and in which order: a registered
/// record reads what is routed to it, in the order of the files' keys; one that is
/// not registered reads `entries` as they are given.
pub open spec fn reading(m: Ledger, record: RecordView, entries: Seq<EntryView>) -> Seq<EntryView> {
    if m.roots.dom().contains(record) {
        route(m, record, entries)
    } else {
        entries
    }
}

/// A record that has no history yet starts from the baseline.
pub open spec fn seed(m: Ledger, record: RecordView) -> Ledger {
    if m.sessions.dom().contains(record) {
        m
    } else {
        Ledger {
            sessions: m.sessions.insert(
                record,
                match m.baseline {
                    Some(baseline) => baseline,
                    None => Map::empty(),
                },
            ),
            ..m
        }
    }
}

/// The numbers of the kept reports that `updates` were shown from.
pub open spec fn shown_from(
    retained: Queues,
    record: RecordView,
    updates: Seq<(Seq<char>, Option<u64>)>,
) -> Seq<(Seq<char>, u64)>
    decreases updates.len(),
{
    if updates.len() == 0 {
        Seq::empty()
    } else {
        let before = shown_from(retained, record, updates.drop_last());
        let key = updates.last().0;
        let queue = queue_at(retained, record, key);
        if queue.len() > 0 {
            before.push((key, queue[0].id))
        } else {
            before
        }
    }
}

/// The state in which a report for `record` is composed.
pub open spec fn prepared(m: Ledger, record: RecordView, entries: Seq<EntryView>) -> Ledger {
    discard(observe(seed(m, record), Some(record), entries), record)
}

/// The pass that composes the report.
pub open spec fn composed(m: Ledger, record: RecordView, entries: Seq<EntryView>) -> DiffView {
    let ready = prepared(m, record, entries);
    diff_all(ready.config, ready.sessions[record], reading(ready, record, entries))
}

/// The token of the report staged for `record`, when it changes anything.
pub open spec fn stage_token(m: Ledger, record: RecordView, entries: Seq<EntryView>) -> Option<u64> {
    if composed(m, record, entries).updates.len() == 0 {
        None
    } else {
        Some((m.next_token + 1) as u64)
    }
}

/// The state after a report for `record` has been composed and staged.
pub open spec fn stage(m: Ledger, record: RecordView, entries: Seq<EntryView>) -> Ledger {
    let ready = prepared(m, record, entries);
    let updates = composed(m, record, entries).updates;
    match stage_token(m, record, entries) {
        None => Ledger { pending: ready.pending.remove(record), ..ready },
        Some(token) => Ledger {
            pending: ready.pending.insert(
                record,
                PendingView {
                    token,
                    updates,
                    snapshots: shown_from(ready.retained, record, updates),
                },
            ),
            next_token: token,
            ..ready
        },
    }
}

/// Whether `token` acknowledges the report staged for `record`.
pub open spec fn acknowledges(m: Ledger, record: RecordView, token: u64) -> bool {
    m.pending.dom().contains(record) && m.pending[record].token == token
}

/// The state after `token` has been acknowledged for `record`. A token that is
/// not that of the staged report changes nothing.
pub open spec fn commit(m: Ledger, record: RecordView, token: u64) -> Ledger {
    if acknowledges(m, record, token) {
        let staged = m.pending[record];
        let told = match lookup(m.sessions, record) {
            Some(told) => told,
            None => Map::empty(),
        };
        commit_named(
            Ledger {
                pending: m.pending.remove(record),
                sessions: m.sessions.insert(record, apply_updates(told, staged.updates)),
                ..m
            },
            record,
            staged.snapshots,
        )
    } else {
        m
    }
}

/// Staging and acknowledging at once.
pub open spec fn flush(m: Ledger, record: RecordView, entries: Seq<EntryView>) -> Ledger {
    match stage_token(m, record, entries) {
        Some(token) => commit(stage(m, record, entries), record, token),
        None => stage(m, record, entries),
    }
}

/// Reports of cycle `from` as reports of cycle `to`.
pub open spec fn restamped(queue: Seq<RetainedView>, from: u64, to: u64) -> Seq<RetainedView> {
    queue.map_values(
        |r: RetainedView|
            if r.generation == from {
                RetainedView { generation: to, ..r }
            } else {
                r
            },
    )
}

/// Reports of file `key` kept in cycle `from` as kept in cycle `to`, so that an
/// acknowledgment naming the surviving cycle still finds them.
pub open spec fn restamp(retained: Queues, key: Seq<char>, from: u64, to: u64) -> Queues {
    Map::new(
        |w: RecordView| retained.dom().contains(w),
        |w: RecordView|
            if retained[w].dom().contains(key) {
                retained[w].insert(key, restamped(retained[w][key], from, to))
            } else {
                retained[w]
            },
    )
}

/// An adopted owner reconciled with the one the root already had. An
/// undelivered cycle outranks a delivered one, so a recipient still owed its
/// report keeps it. Two cycles at the same delivery state are one cycle with
/// two sets of writers.
pub open spec fn merge_owner(owner: OwnerView, existing: OwnerView) -> OwnerView {
    if existing.delivered != owner.delivered {
        if existing.delivered {
            owner
        } else {
            existing
        }
    } else {
        OwnerView { writers: owner.writers.union(existing.writers), ..owner }
    }
}

/// The owner of file `key` under `from` becomes its owner under `root`.
pub open spec fn adopt_file(m: Ledger, from: Seq<char>, root: Seq<char>, key: Seq<char>) -> Ledger {
    if table::has_row(m.ownership, (from, key)) {
        let owner = m.ownership[table::row_of(m.ownership, (from, key))].1;
        let rest = table::drop_row(m.ownership, (from, key));
        if table::has_row(rest, (root, key)) {
            let existing = rest[table::row_of(rest, (root, key))].1;
            Ledger {
                ownership: table::put_row(
                    table::drop_row(rest, (root, key)),
                    (root, key),
                    merge_owner(owner, existing),
                ),
                retained: if existing.delivered == owner.delivered {
                    restamp(m.retained, key, existing.generation, owner.generation)
                } else {
                    m.retained
                },
                ..m
            }
        } else {
            Ledger { ownership: table::put_row(rest, (root, key), owner), ..m }
        }
    } else {
        m
    }
}

/// The files that `session` owns.
pub open spec fn files_of(ownership: Owners, session: Seq<char>) -> Seq<Seq<char>> {
    ownership.filter(|row: ((Seq<char>, Seq<char>), OwnerView)| row.0.0 == session).map_values(
        |row: ((Seq<char>, Seq<char>), OwnerView)| row.0.1,
    )
}

/// [`adopt_file`] for each of `keys`, in order.
pub open spec fn adopt_files(
    m: Ledger,
    from: Seq<char>,
    root: Seq<char>,
    keys: Seq<Seq<char>>,
) -> Ledger
    decreases keys.len(),
{
    if keys.len() == 0 {
        m
    } else {
        adopt_file(adopt_files(m, from, root, keys.drop_last()), from, root, keys.last())
    }
}

/// Everything that `from` owns goes to `root`.
pub open spec fn adopt(m: Ledger, from: Seq<char>, root: Seq<char>) -> Ledger {
    adopt_files(m, from, root, files_of(m.ownership, from))
}

/// The session whose files `caller`'s root takes over: the caller's own, when
/// this is the first root it is seen with.
pub open spec fn provisional(m: Ledger, caller: CallerView) -> Option<Seq<char>> {
    match (caller.record, caller.root) {
        (RecordView::Session(own), Some(root)) => if own != root && !(lookup(
            m.roots,
            caller.record,
        ) matches Some(Some(_))) {
            Some(own)
        } else {
            None
        },
        _ => None,
    }
}

/// The state after `caller` has been registered.
///
/// Without a root the caller is known and its root unknown, unless it was known
/// before. The first root a session is seen with takes over what the session
/// owned on its own; a later one does not move that history again.
pub open spec fn register(m: Ledger, caller: CallerView) -> Ledger {
    match caller.root {
        None => if m.roots.dom().contains(caller.record) {
            m
        } else {
            Ledger { roots: m.roots.insert(caller.record, None), ..m }
        },
        Some(root) => {
            let base = match provisional(m, caller) {
                Some(own) => adopt(m, own, root),
                None => m,
            };
            Ledger { roots: base.roots.insert(caller.record, Some(root)), ..base }
        },
    }
}

/// The owner of file `key` under `root`, or one that has not begun.
pub open spec fn owner_at(ownership: Owners, root: Seq<char>, key: Seq<char>) -> OwnerView {
    if table::has_row(ownership, (root, key)) {
        ownership[table::row_of(ownership, (root, key))].1
    } else {
        OwnerView { generation: 0, delivered: false, writers: Set::empty() }
    }
}

/// `record` wrote file `key` under `root`: it joins the file's cycle, or begins
/// a new one when there is none or the last was delivered.
pub open spec fn claim(m: Ledger, root: Seq<char>, key: Seq<char>, record: RecordView) -> Ledger {
    let owner = owner_at(m.ownership, root, key);
    if owner.generation == 0 || owner.delivered {
        let generation = (m.next_generation + 1) as u64;
        Ledger {
            next_generation: generation,
            ownership: table::put_row(
                m.ownership,
                (root, key),
                OwnerView {
                    generation,
                    delivered: false,
                    writers: Set::empty().insert(record),
                },
            ),
            ..m
        }
    } else {
        Ledger {
            ownership: table::put_row(
                m.ownership,
                (root, key),
                OwnerView { writers: owner.writers.insert(record), ..owner },
            ),
            ..m
        }
    }
}

/// [`claim`] for each of `keys`, in order.
pub open spec fn claim_all(
    m: Ledger,
    root: Seq<char>,
    keys: Seq<Seq<char>>,
    record: RecordView,
) -> Ledger
    decreases keys.len(),
{
    if keys.len() == 0 {
        m
    } else {
        claim(claim_all(m, root, keys.drop_last(), record), root, keys.last(), record)
    }
}

/// The state after `caller` has written `keys`.
pub open spec fn write(m: Ledger, caller: CallerView, keys: Seq<Seq<char>>) -> Ledger {
    let known = register(m, caller);
    claim_all(
        known,
        owning_root(known, caller.record, caller.record.session()),
        keys,
        caller.record,
    )
}

/// Whether a connection that speaks for `records` keeps `record` alive: it
/// speaks for the record itself or for its root.
pub open spec fn guards(
    records: Set<RecordView>,
    record: RecordView,
    root: Option<Seq<char>>,
) -> bool {
    records.contains(record) || match root {
        Some(root) => records.contains(RecordView::Session(root)),
        None => false,
    }
}

/// Whether an open connection keeps `record` alive.
pub open spec fn protected(
    connections: Map<u64, Set<RecordView>>,
    record: RecordView,
    root: Option<Seq<char>>,
) -> bool {
    exists|c: u64|
        connections.dom().contains(c) && guards(#[trigger] connections[c], record, root)
}

/// When `record` expires: never while it is protected, at once after its root
/// has ended, and otherwise a grace after its last activity.
pub open spec fn deadline(l: LifetimeView, record: RecordView) -> Option<int> {
    let life = l.records[record];
    if protected(l.connections, record, life.root) {
        None
    } else if life.ended {
        Some(life.last as int)
    } else {
        Some(life.last + l.grace_ms * 1_000_000)
    }
}

/// Whether `at` is the earliest moment at which a record expires, `None` when no
/// record does.
pub open spec fn is_next_deadline(l: LifetimeView, at: Option<int>) -> bool {
    match at {
        Some(at) => {
            &&& exists|w: RecordView|
                l.records.dom().contains(w) && #[trigger] deadline(l, w) == Some(at)
            &&& forall|w: RecordView|
                l.records.dom().contains(w) ==> match #[trigger] deadline(l, w) {
                    Some(other) => at <= other,
                    None => true,
                }
        },
        None => forall|w: RecordView|
            l.records.dom().contains(w) ==> #[trigger] deadline(l, w) is None,
    }
}

/// What is known of a record after activity of `caller` at `now`. Activity after
/// the root has ended does not count.
pub open spec fn touched(l: LifetimeView, caller: CallerView, now: u64) -> LifeView {
    let over = match caller.root {
        Some(root) => l.ended_roots.contains(root),
        None => false,
    };
    let before = match lookup(l.records, caller.record) {
        Some(life) => life,
        None => LifeView { root: caller.root, last: now, ended: over },
    };
    LifeView {
        root: if caller.root is Some {
            caller.root
        } else {
            before.root
        },
        last: if before.ended || over {
            before.last
        } else {
            now
        },
        ended: before.ended || over,
    }
}

/// `caller` has been active at `now`.
pub open spec fn touch(l: LifetimeView, caller: CallerView, now: u64) -> LifetimeView {
    LifetimeView { records: l.records.insert(caller.record, touched(l, caller, now)), ..l }
}

/// `connection` speaks for `caller` from `now` on.
pub open spec fn attach_life(
    l: LifetimeView,
    connection: u64,
    caller: CallerView,
    now: u64,
) -> LifetimeView {
    let active = touch(l, caller, now);
    LifetimeView {
        connections: active.connections.insert(
            connection,
            match lookup(active.connections, connection) {
                Some(records) => records.insert(caller.record),
                None => Set::empty().insert(caller.record),
            },
        ),
        ..active
    }
}

/// `connection` has closed at `now`: the records that it alone protected were
/// last active then.
pub open spec fn close_life(l: LifetimeView, connection: u64, now: u64) -> LifetimeView {
    let left = l.connections.remove(connection);
    LifetimeView {
        connections: left,
        records: Map::new(
            |r: RecordView| l.records.dom().contains(r),
            |r: RecordView|
                if protected(l.connections, r, l.records[r].root) && !protected(
                    left,
                    r,
                    l.records[r].root,
                ) {
                    LifeView { last: now, ..l.records[r] }
                } else {
                    l.records[r]
                },
        ),
        ..l
    }
}

/// Root session `root` has ended at `now`, and with it its agents.
pub open spec fn end_root_life(l: LifetimeView, root: Seq<char>, now: u64) -> LifetimeView {
    LifetimeView {
        ended_roots: l.ended_roots.insert(root),
        records: Map::new(
            |r: RecordView| l.records.dom().contains(r),
            |r: RecordView|
                if l.records[r].root == Some(root) || r == RecordView::Session(root) {
                    LifeView { last: now, ended: true, ..l.records[r] }
                } else {
                    l.records[r]
                },
        ),
        ..l
    }
}

/// Whether `record` has expired by `now`.
pub open spec fn expired(l: LifetimeView, now: u64, record: RecordView) -> bool {
    l.records.dom().contains(record) && match deadline(l, record) {
        Some(at) => at <= now,
        None => false,
    }
}

/// The records that have expired by `now`.
pub open spec fn expired_by(l: LifetimeView, now: u64) -> Set<RecordView> {
    l.records.dom().filter(|r: RecordView| expired(l, now, r))
}

/// What is left after `now`: the records that have not expired, and of the
/// ended roots those that some of them has.
pub open spec fn expire_life(l: LifetimeView, now: u64) -> LifetimeView {
    let left = l.records.remove_keys(expired_by(l, now));
    LifetimeView {
        records: left,
        ended_roots: l.ended_roots.filter(
            |root: Seq<char>|
                exists|r: RecordView|
                    left.dom().contains(r) && (#[trigger] left[r]).root == Some(root),
        ),
        ..l
    }
}

/// Nothing is known of the records in `gone`, and no connection speaks for
/// them.
pub open spec fn forget_life(l: LifetimeView, gone: Set<RecordView>) -> LifetimeView {
    LifetimeView {
        records: l.records.remove_keys(gone),
        connections: l.connections.map_values(|records: Set<RecordView>| records.difference(gone)),
        ..l
    }
}

/// `ownership` without the writers in `gone`, and without the files that then
/// have no writer.
pub open spec fn without_writers(ownership: Owners, gone: Set<RecordView>) -> Owners {
    ownership.map_values(
        |row: ((Seq<char>, Seq<char>), OwnerView)|
            (row.0, OwnerView { writers: row.1.writers.difference(gone), ..row.1 }),
    ).filter(
        |row: ((Seq<char>, Seq<char>), OwnerView)| row.1.writers != Set::<RecordView>::empty(),
    )
}

/// The state without the records in `gone`: their histories, staged reports,
/// roots, kept reports and claims are dropped, so that a later flush for one of
/// them starts from the baseline again.
pub open spec fn end_records(m: Ledger, gone: Set<RecordView>) -> Ledger {
    Ledger {
        sessions: m.sessions.remove_keys(gone),
        pending: m.pending.remove_keys(gone),
        roots: m.roots.remove_keys(gone),
        retained: m.retained.remove_keys(gone),
        ownership: without_writers(m.ownership, gone),
        lifetime: forget_life(m.lifetime, gone),
        ..m
    }
}

/// The state without `record`.
pub open spec fn end_session(m: Ledger, record: RecordView) -> Ledger {
    end_records(m, Set::empty().insert(record))
}

/// The state after `now`: without the records that have expired by then.
pub open spec fn expire(m: Ledger, now: u64) -> Ledger {
    end_records(
        Ledger { lifetime: expire_life(m.lifetime, now), ..m },
        expired_by(m.lifetime, now),
    )
}

/// The caller as registered.
pub open spec fn registered(m: Ledger, record: RecordView) -> CallerView {
    CallerView {
        record,
        root: match lookup(m.roots, record) {
            Some(root) => root,
            None => None,
        },
    }
}

/// The state after activity of `caller` at `now`.
pub open spec fn touch_hook(m: Ledger, caller: CallerView, now: u64) -> Ledger {
    let known = register(m, caller);
    Ledger { lifetime: touch(known.lifetime, registered(known, caller.record), now), ..known }
}

/// A connection whose host named no session is its own root.
pub open spec fn connecting(connection: u64, caller: CallerView) -> CallerView {
    let anonymous = crate::identity::connection_session(connection as nat);
    if caller.record == RecordView::Session(anonymous) {
        CallerView { root: Some(anonymous), ..caller }
    } else {
        caller
    }
}

/// The state after `connection` has come to speak for `caller` at `now`.
pub open spec fn attach(m: Ledger, connection: u64, caller: CallerView, now: u64) -> Ledger {
    let known = register(m, connecting(connection, caller));
    Ledger {
        lifetime: attach_life(
            known.lifetime,
            connection,
            registered(known, caller.record),
            now,
        ),
        ..known
    }
}

/// The state after `connection` has closed at `now`: its own anonymous record
/// is gone, and so is what has expired.
pub open spec fn close(m: Ledger, connection: u64, now: u64) -> Ledger {
    expire(
        end_session(
            Ledger { lifetime: close_life(m.lifetime, connection, now), ..m },
            RecordView::Session(crate::identity::connection_session(connection as nat)),
        ),
        now,
    )
}

/// The state after root session `root` has ended at `now`.
pub open spec fn end_root(m: Ledger, root: Seq<char>, now: u64) -> Ledger {
    expire(Ledger { lifetime: end_root_life(m.lifetime, root, now), ..m }, now)
}

/// Every kept report is of the file it is kept under, and has the hash of what
/// the file showed.
pub open spec fn kept_under_key(retained: Queues) -> bool {
    forall|w: RecordView, k: Seq<char>, i: int|
        0 <= i < queue_at(retained, w, k).len() ==> (#[trigger] queue_at(
            retained,
            w,
            k,
        )[i]).file.key == k && queue_at(retained, w, k)[i].hash == queue_at(
            retained,
            w,
            k,
        )[i].file.hash()
}

/// What `from` was told joins what `to` was told, where `to` has nothing of its
/// own, and `from` ends.
pub open spec fn merge_session(m: Ledger, from: RecordView, to: RecordView) -> Ledger {
    if from == to {
        m
    } else {
        let merged = match lookup(m.sessions, from) {
            Some(history) => Ledger {
                sessions: m.sessions.insert(
                    to,
                    match lookup(m.sessions, to) {
                        Some(own) => history.union_prefer_right(own),
                        None => history,
                    },
                ),
                ..m
            },
            None => m,
        };
        end_session(merged, from)
    }
}

/// Every owner has a writer, and its cycle is one of the first `begun`.
pub open spec fn all_written(ownership: Owners, begun: u64) -> bool {
    forall|i: int|
        0 <= i < ownership.len() ==> (#[trigger] ownership[i]).1.writers
            != Set::<RecordView>::empty() && 0 < ownership[i].1.generation <= begun
}

/// Every writer, and every record that reports are kept for, is registered.
pub open spec fn all_registered(
    ownership: Owners,
    retained: Queues,
    roots: Map<RecordView, Option<Seq<char>>>,
) -> bool {
    &&& forall|i: int|
        0 <= i < ownership.len() ==> (#[trigger] ownership[i]).1.writers.subset_of(roots.dom())
    &&& forall|w: RecordView| #[trigger] retained.dom().contains(w) ==> roots.dom().contains(w)
}

/// What holds of the state at all times: a staged report belongs to a record
/// that has a history, no file has two owners under one root, every owner has a
/// writer and is in a cycle that has begun, every kept report is of the file it
/// is kept under, and whoever writes or has reports kept is registered.
pub open spec fn sound(m: Ledger) -> bool {
    &&& forall|w: RecordView| #[trigger]
        m.pending.dom().contains(w) ==> m.sessions.dom().contains(w)
    &&& table::distinct_rows(m.ownership)
    &&& all_written(m.ownership, m.next_generation)
    &&& kept_under_key(m.retained)
    &&& all_registered(m.ownership, m.retained, m.roots)
}

} // verus!
