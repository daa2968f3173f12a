//! Per-record deduplication of language server diagnostics.
//!
//! A flush answers one question: what is different since this record was last
//! confirmed to have been told? The record is a hash per file rather than a set
//! of individual diagnostics, because when a file breaks, its full current
//! error list is more useful than a delta against a list that has left the
//! context window.

use crate::config::{DiagnosticsConfig, SeverityFloor};
use crate::diagnostics;
use crate::diagnostics::{dup_diagnostics, visible_diagnostics, visible_hash, Diagnostic};
use crate::encoding::PositionEncoding;
use crate::identity::{RecordId, RecordView, SessionId};
use crate::ledger;
use crate::ledger::{
    ChangedView, DiffView, EntryView, Ledger, OwnerView, PendingView, ReportView, RetainedView,
    SourceView,
};
use crate::record_lifetime::RecordLifetime;
use crate::soundness;
use crate::table;
use crate::table::{Key, KeySet, Table};
use vstd::prelude::*;
use vstd::string::*;

verus! {

/// One file's current diagnostics, as the caller assembled them.
pub struct FileEntry<'a> {
    /// Cache key identifying the file, stable across publishes.
    pub key: &'a str,
    /// Everything the owning server currently reports for this file.
    pub diagnostics: &'a [Diagnostic],
    /// The floor this file's server answers to.
    pub floor: SeverityFloor,
}

impl<'a> DeepView for FileEntry<'a> {
    type V = EntryView;

    open spec fn deep_view(&self) -> EntryView {
        EntryView {
            key: self.key@,
            diagnostics: self.diagnostics.deep_view(),
            floor: self.floor,
        }
    }
}

/// One file's diagnostics, held.
pub struct OwnedEntry {
    /// Cache key identifying the file.
    pub key: String,
    /// What its server reported.
    pub diagnostics: Vec<Diagnostic>,
    /// The floor its server answered to.
    pub floor: SeverityFloor,
}

impl DeepView for OwnedEntry {
    type V = EntryView;

    open spec fn deep_view(&self) -> EntryView {
        EntryView {
            key: self.key@,
            diagnostics: self.diagnostics.deep_view(),
            floor: self.floor,
        }
    }
}

impl OwnedEntry {
    /// A second entry that says the same.
    pub fn dup(&self) -> (r: Self)
        ensures
            r.deep_view() == self.deep_view(),
    {
        OwnedEntry {
            key: self.key.clone(),
            diagnostics: dup_diagnostics(self.diagnostics.as_slice()),
            floor: self.floor,
        }
    }

    /// Hold what `entry` says.
    pub fn of(entry: &FileEntry<'_>) -> (r: Self)
        ensures
            r.deep_view() == entry.deep_view(),
    {
        OwnedEntry {
            key: entry.key.to_owned(),
            diagnostics: dup_diagnostics(entry.diagnostics),
            floor: entry.floor,
        }
    }
}

/// One file that changed since the last flush.
#[derive(Clone, Debug)]
pub struct ChangedFile {
    /// Cache key, matching the [`FileEntry`] this came from.
    pub key: String,
    /// Diagnostics at or above the floor, capped.
    pub diagnostics: Vec<Diagnostic>,
    /// How many admitted diagnostics did not make it into `diagnostics`.
    pub omitted: usize,
}

impl DeepView for ChangedFile {
    type V = ChangedView;

    open spec fn deep_view(&self) -> ChangedView {
        ChangedView {
            key: self.key@,
            diagnostics: self.diagnostics.deep_view(),
            omitted: self.omitted as int,
        }
    }
}

/// What one flush found.
#[derive(Clone, Debug)]
pub struct FlushReport {
    /// Files whose visible diagnostics differ from the last flush.
    pub changed: Vec<ChangedFile>,
    /// Cache keys of files that had visible diagnostics and now have none.
    pub cleared: Vec<String>,
    /// Whole files the total budget could not fit this flush. Their record is
    /// left untouched, so the next flush offers them again in full.
    pub omitted: usize,
}

impl DeepView for FlushReport {
    type V = ReportView;

    open spec fn deep_view(&self) -> ReportView {
        ReportView {
            changed: self.changed.deep_view(),
            cleared: self.cleared.deep_view(),
            omitted: self.omitted as int,
        }
    }
}

/// The text that a report's ranges count in.
#[derive(Clone, Debug)]
pub struct DiagnosticSnapshot {
    /// The document.
    pub uri: String,
    /// The units its columns count.
    pub encoding: PositionEncoding,
    /// Its text, when known.
    pub text: Option<String>,
}

impl DeepView for DiagnosticSnapshot {
    type V = SourceView;

    open spec fn deep_view(&self) -> SourceView {
        SourceView { uri: self.uri@, encoding: self.encoding, text: self.text.deep_view() }
    }
}

impl DiagnosticSnapshot {
    /// A second snapshot of the same text.
    pub fn dup(&self) -> (r: Self)
        ensures
            r.deep_view() == self.deep_view(),
    {
        DiagnosticSnapshot {
            uri: self.uri.clone(),
            encoding: self.encoding,
            text: match &self.text {
                Some(text) => Some(text.clone()),
                None => None,
            },
        }
    }
}

/// Who wrote a file in its current cycle of writing and delivering.
pub struct Ownership {
    /// The cycle.
    pub generation: u64,
    /// Whether a report of the cycle has been acknowledged.
    pub delivered: bool,
    /// The writers.
    pub writers: KeySet<RecordId>,
}

impl DeepView for Ownership {
    type V = OwnerView;

    open spec fn deep_view(&self) -> OwnerView {
        OwnerView {
            generation: self.generation,
            delivered: self.delivered,
            writers: self.writers@,
        }
    }
}

impl Ownership {
    /// A second owner that says the same.
    pub fn dup(&self) -> (r: Self)
        ensures
            r.deep_view() == self.deep_view(),
    {
        Ownership {
            generation: self.generation,
            delivered: self.delivered,
            writers: self.writers.dup(),
        }
    }
}

/// A report kept for a writer until the writer acknowledges it.
pub struct RetainedFile {
    /// Its number.
    pub id: u64,
    /// The root it was kept under.
    pub root: SessionId,
    /// The cycle it was kept in.
    pub generation: u64,
    /// The file as it was.
    pub file: OwnedEntry,
    /// The hash of what the file showed.
    pub hash: Option<u64>,
    /// The text that its ranges count in.
    pub source: Option<DiagnosticSnapshot>,
}

impl DeepView for RetainedFile {
    type V = RetainedView;

    open spec fn deep_view(&self) -> RetainedView {
        RetainedView {
            id: self.id,
            root: self.root@,
            generation: self.generation,
            file: self.file.deep_view(),
            hash: self.hash,
            source: self.source.deep_view(),
        }
    }
}

impl RetainedFile {
    /// A second report that says the same.
    pub fn dup(&self) -> (r: Self)
        ensures
            r.deep_view() == self.deep_view(),
    {
        RetainedFile {
            id: self.id,
            root: self.root.dup(),
            generation: self.generation,
            file: self.file.dup(),
            hash: self.hash,
            source: match &self.source {
                Some(source) => Some(source.dup()),
                None => None,
            },
        }
    }
}

/// The record changes one staged report implies, held back until the reader
/// confirms the answer carrying that report reached it.
pub struct PendingFlush {
    /// The token that acknowledges it.
    pub token: u64,
    /// `Some(hash)` records the file as delivered at that hash; `None` forgets
    /// it, for a file that cleared or was muted.
    pub updates: Vec<(String, Option<u64>)>,
    /// Per file the number of the kept report that was shown.
    pub snapshots: Vec<(String, u64)>,
}

impl DeepView for PendingFlush {
    type V = PendingView;

    open spec fn deep_view(&self) -> PendingView {
        PendingView {
            token: self.token,
            updates: self.updates.deep_view(),
            snapshots: self.snapshots.deep_view(),
        }
    }
}

/// Per-record histories of what has already been delivered.
pub struct DiagnosticsDelivery {
    /// The caps.
    pub(crate) config: DiagnosticsConfig,
    /// What each record has been told.
    pub(crate) sessions: Table<RecordId, Table<String, u64>>,
    /// What a new record starts out believing.
    pub(crate) baseline: Option<Table<String, u64>>,
    /// At most one staged report per record.
    pub(crate) pending: Table<RecordId, PendingFlush>,
    /// The last token given out.
    pub(crate) next_token: u64,
    /// The text of each file as last captured.
    pub(crate) sources: Table<String, DiagnosticSnapshot>,
    /// The registered callers and their roots.
    pub(crate) roots: Table<RecordId, Option<SessionId>>,
    /// Who owns which file.
    pub(crate) ownership: Table<(SessionId, String), Ownership>,
    /// The reports kept for writers, oldest first.
    pub(crate) retained: Table<RecordId, Table<String, Vec<RetainedFile>>>,
    /// The last cycle begun.
    pub(crate) next_generation: u64,
    /// The last number given to a kept report.
    pub(crate) next_snapshot: u64,
    /// Which records are alive.
    pub(crate) lifetime: RecordLifetime,
}

impl DeepView for DiagnosticsDelivery {
    type V = Ledger;

    open(crate) spec fn deep_view(&self) -> Ledger {
        Ledger {
            config: self.config,
            sessions: self.sessions@,
            baseline: self.baseline.deep_view(),
            pending: self.pending@,
            next_token: self.next_token,
            sources: self.sources@,
            roots: self.roots@,
            ownership: self.ownership.rows(),
            retained: self.retained@,
            next_generation: self.next_generation,
            next_snapshot: self.next_snapshot,
            lifetime: self.lifetime.deep_view(),
        }
    }
}

impl View for DiagnosticsDelivery {
    type V = Ledger;

    open spec fn view(&self) -> Ledger {
        self.deep_view()
    }
}

/// The budget as a number.
spec fn budget_view(budget: Option<usize>) -> Option<int> {
    match budget {
        Some(left) => Some(left as int),
        None => None,
    }
}

/// One pass over `entries` against `record`: the report, and the record writes
/// it implies, in the order `entries` gives them.
fn diff_entries(
    config: DiagnosticsConfig,
    record: &Table<String, u64>,
    entries: &Vec<OwnedEntry>,
) -> (r: (FlushReport, Vec<(String, Option<u64>)>))
    ensures
        r.0.deep_view() == ledger::diff_all(config, record@, entries.deep_view()).report,
        r.1.deep_view() == ledger::diff_all(config, record@, entries.deep_view()).updates,
{
    let mut changed: Vec<ChangedFile> = Vec::new();
    let mut cleared: Vec<String> = Vec::new();
    let mut omitted: usize = 0;
    let mut updates: Vec<(String, Option<u64>)> = Vec::new();
    let mut budget: Option<usize> = if config.max_total > 0 {
        Some(config.max_total)
    } else {
        None
    };
    let ghost all = entries.deep_view();
    let mut i: usize = 0;
    proof {
        assert(all.take(0) =~= Seq::empty());
        assert(changed.deep_view() =~= Seq::empty());
        assert(cleared.deep_view() =~= Seq::empty());
        assert(updates.deep_view() =~= Seq::empty());
    }
    while i < entries.len()
        invariant
            i <= entries.len(),
            all == entries.deep_view(),
            omitted <= i,
            ledger::diff_all(config, record@, all.take(i as int)) == (DiffView {
                report: ReportView {
                    changed: changed.deep_view(),
                    cleared: cleared.deep_view(),
                    omitted: omitted as int,
                },
                updates: updates.deep_view(),
                budget: budget_view(budget),
            }),
        decreases entries.len() - i,
    {
        let entry = &entries[i];
        let ghost e = entry.deep_view();
        let ghost before = ledger::diff_all(config, record@, all.take(i as int));
        let ghost changed0 = changed.deep_view();
        let ghost cleared0 = cleared.deep_view();
        let ghost updates0 = updates.deep_view();
        proof {
            assert(all.take(i + 1).drop_last() =~= all.take(i as int));
            assert(all.take(i + 1).last() == e);
        }
        let list = entry.diagnostics.as_slice();
        assert(list.deep_view() =~= entry.diagnostics.deep_view());
        let hash = visible_hash(list, entry.floor);
        let previous: Option<u64> = match record.get(&entry.key) {
            Some(hash) => Some(*hash),
            None => None,
        };
        assert(previous == ledger::lookup(record@, e.key));
        match (hash, previous) {
            (None, Some(_)) => {
                if entry.floor == SeverityFloor::Off {
                    updates.push((entry.key.clone(), None));
                    assert(updates.deep_view() =~= updates0.push((e.key, None)));
                } else if budget == Some(0usize) {
                    omitted = omitted + 1;
                } else {
                    if let Some(left) = budget {
                        budget = Some(left - 1);
                    }
                    updates.push((entry.key.clone(), None));
                    cleared.push(entry.key.clone());
                    assert(updates.deep_view() =~= updates0.push((e.key, None)));
                    assert(cleared.deep_view() =~= cleared0.push(e.key));
                }
            },
            (None, None) => {},
            (Some(current), _) => {
                if previous != Some(current) {
                    let mut shown = visible_diagnostics(list, entry.floor);
                    let ghost kept = ledger::capped(config, e.shown());
                    let total: usize = shown.len();
                    assert(shown.deep_view() == e.shown());
                    if config.max_per_file != 0 && total > config.max_per_file {
                        shown.truncate(config.max_per_file);
                    }
                    assert(shown.deep_view() =~= kept);
                    let dropped: usize = total - shown.len();
                    let fits: Option<usize> = match budget {
                        None => Some(0),
                        Some(left) => {
                            if shown.len() <= left {
                                budget = Some(left - shown.len());
                                Some(0)
                            } else if left == config.max_total {
                                let shortfall: usize = shown.len() - left;
                                shown.truncate(left);
                                assert(shown.deep_view() =~= kept.take(left as int));
                                budget = Some(0);
                                Some(shortfall)
                            } else {
                                None
                            }
                        },
                    };
                    match fits {
                        None => {
                            omitted = omitted + 1;
                        },
                        Some(shortfall) => {
                            updates.push((entry.key.clone(), Some(current)));
                            assert(updates.deep_view() =~= updates0.push((e.key, Some(current))));
                            let ghost list = shown.deep_view();
                            changed.push(
                                ChangedFile {
                                    key: entry.key.clone(),
                                    diagnostics: shown,
                                    omitted: dropped + shortfall,
                                },
                            );
                            assert(changed.deep_view() =~= changed0.push(
                                ChangedView {
                                    key: e.key,
                                    diagnostics: list,
                                    omitted: dropped + shortfall,
                                },
                            ));
                        },
                    }
                }
            },
        }
        i = i + 1;
    }
    assert(all.take(i as int) =~= all);
    (FlushReport { changed, cleared, omitted }, updates)
}

/// `entries`, each with diagnostics of its own.
fn owned_entries(entries: &[FileEntry<'_>]) -> (r: Vec<OwnedEntry>)
    ensures
        r.deep_view() == entries.deep_view(),
{
    let ghost all = entries.deep_view();
    let mut r: Vec<OwnedEntry> = Vec::new();
    let mut i: usize = 0;
    assert(r.deep_view() =~= all.take(0));
    while i < entries.len()
        invariant
            i <= entries.len(),
            all == entries.deep_view(),
            r.deep_view() == all.take(i as int),
        decreases entries.len() - i,
    {
        let ghost before = r.deep_view();
        r.push(OwnedEntry::of(&entries[i]));
        i = i + 1;
        assert(r.deep_view() =~= before.push(all[i - 1]));
        assert(all.take(i as int) =~= before.push(all[i - 1]));
    }
    assert(all.take(i as int) =~= all);
    r
}

/// A second history that says the same.
fn dup_record(record: &Table<String, u64>) -> (r: Table<String, u64>)
    ensures
        r@ == record@,
{
    let ghost rows = record.rows();
    let n: usize = record.len();
    let mut r: Table<String, u64> = Table::new();
    let mut i: usize = 0;
    proof {
        table::lemma_rows_map(rows);
        table::lemma_rows_map(rows.take(0));
        assert(r@ =~= table::rows_map(rows.take(0)));
    }
    while i < n
        invariant
            rows == record.rows(),
            n == rows.len(),
            i <= n,
            table::distinct_rows(rows),
            r.rows() == rows.take(i as int),
        decreases n - i,
    {
        let ghost part = rows.take(i as int);
        let ghost row = rows[i as int];
        proof {
            assert(!table::has_row(part, row.0)) by {
                if table::has_row(part, row.0) {
                    let j = table::row_of(part, row.0);
                    assert(rows[j].0 != rows[i as int].0);
                }
            }
            assert(rows.take(i + 1) =~= part.push(row));
        }
        r.put(record.key_at(i).dup(), *record.value_at(i));
        i = i + 1;
    }
    assert(rows.take(i as int) =~= rows);
    r
}

impl DiagnosticsDelivery {
    /// Build a delivery core answering to `config`.
    pub fn new(config: DiagnosticsConfig) -> (r: Self)
        ensures
            r@ == (Ledger {
                config,
                sessions: Map::empty(),
                baseline: None,
                pending: Map::empty(),
                next_token: 0,
                sources: Map::empty(),
                roots: Map::empty(),
                ownership: Seq::empty(),
                retained: Map::empty(),
                next_generation: 0,
                next_snapshot: 0,
                lifetime: ledger::LifetimeView {
                    grace_ms: config.record_grace_ms,
                    records: Map::empty(),
                    connections: Map::empty(),
                    ended_roots: Set::empty(),
                },
            }),
            ledger::sound(r@),
    {
        DiagnosticsDelivery {
            config,
            sessions: Table::new(),
            baseline: None,
            pending: Table::new(),
            next_token: 0,
            sources: Table::new(),
            roots: Table::new(),
            ownership: Table::new(),
            retained: Table::new(),
            next_generation: 0,
            next_snapshot: 0,
            lifetime: RecordLifetime::new(config.record_grace_ms),
        }
    }

    /// Adopt `baseline` as what every future record starts out believing.
    ///
    /// Taken once the workspace's servers have gone quiet. Without it the first
    /// flush of a session reports every warning the workspace already had,
    /// which is never what the agent asked for.
    pub fn set_baseline(&mut self, baseline: Table<String, u64>)
        ensures
            final(self)@ == (Ledger { baseline: Some(baseline@), ..old(self)@ }),
            ledger::sound(old(self)@) ==> ledger::sound(final(self)@),
    {
        self.baseline = Some(baseline);
    }

    /// Whether a baseline has been adopted yet.
    pub fn has_baseline(&self) -> (r: bool)
        ensures
            r == (self@.baseline is Some),
    {
        self.baseline.is_some()
    }

    /// Whether `record` belongs to a caller that is registered.
    pub fn is_registered(&self, record: &RecordId) -> (r: bool)
        ensures
            r == self@.roots.dom().contains(record.deep_view()),
    {
        self.roots.has(record)
    }

    /// Whether a report is staged for `record` and not acknowledged.
    pub fn is_staged(&self, record: &RecordId) -> (r: bool)
        ensures
            r == self@.pending.dom().contains(record.deep_view()),
    {
        self.pending.has(record)
    }

    /// Whether no report is kept for anyone.
    pub fn keeps_nothing(&self) -> (r: bool)
        ensures
            r == (self@.retained == ledger::Queues::empty()),
    {
        self.retained.is_empty()
    }

    /// How many claims there are, of one root on one file each.
    pub fn claims(&self) -> (r: usize)
        ensures
            r == self@.ownership.len(),
    {
        self.ownership.len()
    }

    /// The earliest moment at which a record expires, if any does.
    pub fn next_deadline(&self) -> (r: Option<u128>)
        ensures
            ledger::is_next_deadline(
                self@.lifetime,
                match r {
                    Some(at) => Some(at as int),
                    None => None,
                },
            ),
    {
        self.lifetime.next_deadline()
    }

    /// Whether a report on `files` files can be numbered. The counters hold
    /// sixty-four bits, so they do not run out in practice.
    pub fn can_report(&self, files: usize) -> (r: bool)
        ensures
            r == (self@.next_token < u64::MAX && self@.next_snapshot + files * (
            self@.ownership.len() + 1) <= u64::MAX),
    {
        let width: u128 = self.ownership.len() as u128 + 1;
        let count: u128 = files as u128;
        proof {
            let n = self@.ownership.len() as int;
            assert(0 <= count * width <= 0xffff_ffff_ffff_ffff * 0x1_0000_0000_0000_0000)
                by (nonlinear_arith)
                requires
                    0 <= count <= 0xffff_ffff_ffff_ffff,
                    0 <= width <= 0x1_0000_0000_0000_0000,
            ;
            assert(count * width == files * (n + 1));
        }
        self.next_token < u64::MAX && self.next_snapshot as u128 + count * width
            <= u64::MAX as u128
    }

    /// Whether cycles for `files` files can be numbered.
    pub fn can_claim(&self, files: usize) -> (r: bool)
        ensures
            r == (self@.next_generation + files <= u64::MAX),
    {
        self.next_generation as u128 + files as u128 <= u64::MAX as u128
    }

    /// Hash one file's visible diagnostics, whatever their order. `None` means
    /// the file has nothing visible at all.
    pub fn visible_hash(diagnostics: &[Diagnostic], floor: SeverityFloor) -> (r: Option<u64>)
        ensures
            r == diagnostics::hash_of(diagnostics.deep_view(), floor),
    {
        visible_hash(diagnostics, floor)
    }

    /// Give `record` a history, from the baseline if it has none.
    fn seed(&mut self, record: &RecordId)
        ensures
            final(self)@ == ledger::seed(old(self)@, record.deep_view()),
    {
        if !self.sessions.has(record) {
            let start = match &self.baseline {
                Some(baseline) => dup_record(baseline),
                None => Table::new(),
            };
            self.sessions.put(record.dup(), start);
        }
    }

    /// The numbers of the kept reports that `updates` were shown from.
    fn shown_from(&self, record: &RecordId, updates: &Vec<(String, Option<u64>)>) -> (r: Vec<
        (String, u64),
    >)
        ensures
            r.deep_view() == ledger::shown_from(
                self@.retained,
                record.deep_view(),
                updates.deep_view(),
            ),
    {
        let ghost all = updates.deep_view();
        let mut r: Vec<(String, u64)> = Vec::new();
        let mut i: usize = 0;
        proof {
            assert(all.take(0) =~= Seq::empty());
            assert(r.deep_view() =~= Seq::empty());
        }
        while i < updates.len()
            invariant
                i <= updates.len(),
                all == updates.deep_view(),
                r.deep_view() == ledger::shown_from(
                    self@.retained,
                    record.deep_view(),
                    all.take(i as int),
                ),
            decreases updates.len() - i,
        {
            let ghost before = r.deep_view();
            let key = &updates[i].0;
            proof {
                assert(all.take(i + 1).drop_last() =~= all.take(i as int));
                assert(all.take(i + 1).last() == updates@[i as int].deep_view());
            }
            match self.retained.get(record) {
                Some(files) => match files.get(key) {
                    Some(queue) => {
                        if queue.len() > 0 {
                            let id: u64 = queue[0].id;
                            r.push((key.clone(), id));
                            assert(r.deep_view() =~= before.push((key@, id)));
                        }
                    },
                    None => {},
                },
                None => {},
            }
            i = i + 1;
        }
        assert(all.take(i as int) =~= all);
        r
    }

    /// Report what changed for `record` since its last committed flush, and
    /// stage the record changes that report implies.
    ///
    /// The record does not move here. It moves in [`Self::commit`], once the
    /// reader confirms the answer carrying this report reached it, so a reader
    /// that gives up before that answer is in hand, or dies holding it without
    /// confirming, leaves the record where it was and the next `stage` offers
    /// the same report again. The token is `None` when the report implies no
    /// record change, which is also when there is nothing for a reader to
    /// acknowledge. A stage replaces whatever the record had staged before.
    ///
    /// For a record that is not registered the entries are passed over in the order
    /// given. What a registered one is owed comes in the order of the files' keys.
    pub fn stage(&mut self, record: &RecordId, entries: &[FileEntry<'_>]) -> (r: (
        FlushReport,
        Option<u64>,
    ))
        requires
            ledger::sound(old(self)@),
            old(self)@.next_token < u64::MAX,
            old(self)@.next_snapshot + entries.len() * (old(self)@.ownership.len() + 1) <= u64::MAX,
        ensures
            r.0.deep_view() == ledger::composed(
                old(self)@,
                record.deep_view(),
                entries.deep_view(),
            ).report,
            r.1 == ledger::stage_token(old(self)@, record.deep_view(), entries.deep_view()),
            final(self)@ == ledger::stage(old(self)@, record.deep_view(), entries.deep_view()),
            ledger::sound(final(self)@),
    {
        let ghost m = self@;
        let ghost who = record.deep_view();
        let ghost all = entries.deep_view();
        proof {
            let start = ledger::seed(m, who);
            soundness::lemma_observe(start, Some(who), all);
            soundness::lemma_discard(ledger::observe(start, Some(who), all), who);
            soundness::law_stage_keeps_sound(m, who, all);
        }
        self.seed(record);
        self.observe_for(Some(record), entries);
        self.discard_consumed_snapshots(record);
        let ghost ready = self@;
        assert(ready == ledger::prepared(m, who, all));
        let read = if self.roots.has(record) {
            self.routed_entries(record, entries)
        } else {
            owned_entries(entries)
        };
        let (report, updates) = match self.sessions.get(record) {
            Some(history) => diff_entries(self.config, history, &read),
            None => {
                assert(false);
                return (FlushReport { changed: Vec::new(), cleared: Vec::new(), omitted: 0 }, None);
            },
        };
        if updates.len() == 0 {
            let _ = self.pending.take(record);
            return (report, None);
        }
        let snapshots = self.shown_from(record, &updates);
        self.next_token = self.next_token + 1;
        let token = self.next_token;
        self.pending.put(record.dup(), PendingFlush { token, updates, snapshots });
        (report, Some(token))
    }

    /// Apply the record changes staged under `token`.
    ///
    /// `false`, and nothing written, when `token` is not the record's staged
    /// report: a later stage replaced it, an immediate flush superseded it, or
    /// the session ended.
    pub fn commit(&mut self, record: &RecordId, token: u64) -> (r: bool)
        requires
            ledger::sound(old(self)@),
        ensures
            r == ledger::acknowledges(old(self)@, record.deep_view(), token),
            final(self)@ == ledger::commit(old(self)@, record.deep_view(), token),
            ledger::sound(final(self)@),
    {
        let ghost m = self@;
        let ghost who = record.deep_view();
        proof {
            soundness::law_commit_keeps_sound(m, who, token);
        }
        let current = match self.pending.get(record) {
            Some(pending) => pending.token == token,
            None => false,
        };
        if !current {
            return false;
        }
        match self.pending.take(record) {
            None => false,
            Some(staged) => {
                let mut told = match self.sessions.take(record) {
                    Some(told) => told,
                    None => Table::new(),
                };
                let ghost start = told@;
                let ghost all = staged.updates.deep_view();
                let mut i: usize = 0;
                proof {
                    assert(all.take(0) =~= Seq::empty());
                    assert(start =~= match ledger::lookup(m.sessions, who) {
                        Some(told) => told,
                        None => Map::empty(),
                    });
                }
                while i < staged.updates.len()
                    invariant
                        i <= staged.updates.len(),
                        all == staged.updates.deep_view(),
                        told@ == ledger::apply_updates(start, all.take(i as int)),
                    decreases staged.updates.len() - i,
                {
                    let update = &staged.updates[i];
                    proof {
                        assert(all.take(i + 1).drop_last() =~= all.take(i as int));
                        assert(all.take(i + 1).last() == update.deep_view());
                    }
                    match update.1 {
                        Some(hash) => {
                            told.put(update.0.clone(), hash);
                        },
                        None => {
                            let _ = told.take(&update.0);
                        },
                    }
                    i = i + 1;
                }
                assert(all.take(i as int) =~= all);
                let ghost after = told@;
                self.sessions.put(record.dup(), told);
                assert(self.sessions@ =~= m.sessions.insert(who, after));
                self.commit_snapshots(record, &staged.snapshots);
                true
            },
        }
    }

    /// [`Self::stage`] and [`Self::commit`] in one call, for a reader whose
    /// answer either arrives or ends the session.
    pub fn flush(&mut self, record: &RecordId, entries: &[FileEntry<'_>]) -> (r: FlushReport)
        requires
            ledger::sound(old(self)@),
            old(self)@.next_token < u64::MAX,
            old(self)@.next_snapshot + entries.len() * (old(self)@.ownership.len() + 1) <= u64::MAX,
        ensures
            r.deep_view() == ledger::composed(
                old(self)@,
                record.deep_view(),
                entries.deep_view(),
            ).report,
            final(self)@ == ledger::flush(old(self)@, record.deep_view(), entries.deep_view()),
            ledger::sound(final(self)@),
    {
        let (report, token) = self.stage(record, entries);
        if let Some(token) = token {
            let _ = self.commit(record, token);
        }
        report
    }

    /// Drop the writers' claims of `record`.
    fn drop_writer(&mut self, record: &RecordId)
        ensures
            final(self)@ == (Ledger {
                ownership: ledger::without_writers(
                    old(self)@.ownership,
                    Set::empty().insert(record.deep_view()),
                ),
                ..old(self)@
            }),
    {
        let ghost m = self@;
        let ghost rows = m.ownership;
        let ghost gone = Set::<RecordView>::empty().insert(record.deep_view());
        let n: usize = self.ownership.len();
        let mut left: Table<(SessionId, String), Ownership> = Table::new();
        let mut i: usize = 0;
        proof {
            assert(rows.take(0) =~= Seq::empty());
            reveal(Seq::filter);
            assert(left.rows() =~= ledger::without_writers(rows.take(0), gone));
        }
        while i < n
            invariant
                self@ == m,
                rows == self.ownership.rows(),
                n == rows.len(),
                i <= n,
                table::distinct_rows(rows),
                gone == Set::<RecordView>::empty().insert(record.deep_view()),
                left.rows() == ledger::without_writers(rows.take(i as int), gone),
            decreases n - i,
        {
            let ghost part = rows.take(i as int);
            let ghost row = rows[i as int];
            let owner = self.ownership.value_at(i);
            let mut thinned = owner.dup();
            thinned.writers.remove(record);
            let ghost v = thinned.deep_view();
            proof {
                assert(row.1.writers.difference(gone) =~= v.writers);
                assert(rows.take(i + 1) =~= part.push(row));
                soundness::lemma_without_push(part, row, gone);
            }
            if !thinned.writers.is_empty() {
                proof {
                    assert forall|a: int, b: int| 0 <= a < b < part.len() implies (#[trigger]
                    part[a]).0 != (#[trigger] part[b]).0 by {
                        assert(rows[a].0 != rows[b].0);
                    }
                    lemma_without_keys(part, gone);
                    assert(!table::has_row(left.rows(), row.0)) by {
                        if table::has_row(left.rows(), row.0) {
                            let j = table::row_of(left.rows(), row.0);
                            assert(table::has_row(part, left.rows()[j].0));
                            let x = table::row_of(part, row.0);
                            assert(rows[x].0 != rows[i as int].0);
                        }
                    }
                }
                left.put(self.ownership.key_at(i).dup(), thinned);
            }
            i = i + 1;
        }
        assert(rows.take(i as int) =~= rows);
        self.ownership = left;
    }

    /// Drop `record`'s history, so a later flush for the same record starts from
    /// the baseline again.
    pub fn end_session(&mut self, record: &RecordId)
        requires
            ledger::sound(old(self)@),
        ensures
            final(self)@ == ledger::end_session(old(self)@, record.deep_view()),
            ledger::sound(final(self)@),
    {
        let ghost m = self@;
        let ghost gone = Set::<RecordView>::empty().insert(record.deep_view());
        let _ = self.sessions.take(record);
        let _ = self.pending.take(record);
        let _ = self.roots.take(record);
        let _ = self.retained.take(record);
        self.lifetime.forget(record);
        self.drop_writer(record);
        proof {
            soundness::law_end_keeps_sound(m, gone);
            assert(self@.sessions =~= m.sessions.remove_keys(gone));
            assert(self@.pending =~= m.pending.remove_keys(gone));
            assert(self@.roots =~= m.roots.remove_keys(gone));
            assert(self@.retained =~= m.retained.remove_keys(gone));
        }
    }
}

/// What is left without the writers that are gone was there before.
proof fn lemma_without_keys(rows: ledger::Owners, gone: Set<RecordView>)
    requires
        table::distinct_rows(rows),
    ensures
        forall|i: int|
            0 <= i < ledger::without_writers(rows, gone).len() ==> table::has_row(
                rows,
                (#[trigger] ledger::without_writers(rows, gone)[i]).0,
            ),
{
    let f = |row: ((Seq<char>, Seq<char>), OwnerView)|
        (row.0, OwnerView { writers: row.1.writers.difference(gone), ..row.1 });
    let thinned = rows.map_values(f);
    crate::table::lemma_same_keys(rows, thinned);
    let keep = |row: ((Seq<char>, Seq<char>), OwnerView)|
        row.1.writers != Set::<RecordView>::empty();
    crate::soundness::lemma_filter_distinct(thinned, keep);
    let left = ledger::without_writers(rows, gone);
    assert forall|i: int| 0 <= i < left.len() implies table::has_row(rows, (#[trigger] left[i]).0) by {
        assert(thinned.contains(left[i]));
        let j = choose|j: int| 0 <= j < thinned.len() && thinned[j] == left[i];
        assert(rows[j].0 == left[i].0);
    }
}

impl DiagnosticsDelivery {
    /// Let `to` adopt what `from` was told, where `to` has nothing of its own,
    /// and end `from`.
    pub fn merge_session(&mut self, from: &RecordId, to: &RecordId)
        requires
            ledger::sound(old(self)@),
        ensures
            final(self)@ == ledger::merge_session(
                old(self)@,
                from.deep_view(),
                to.deep_view(),
            ),
            ledger::sound(final(self)@),
    {
        if from.same(to) {
            return ;
        }
        let ghost m = self@;
        let history = match self.sessions.get(from) {
            Some(history) => Some(dup_record(history)),
            None => None,
        };
        if let Some(history) = history {
            let mut merged = history;
            let ghost start = merged@;
            let own = match self.sessions.take(to) {
                Some(own) => own,
                None => Table::new(),
            };
            let ghost rows = own.rows();
            let n: usize = own.len();
            let mut i: usize = 0;
            proof {
                table::lemma_rows_map(rows);
                assert(start.union_prefer_right(table::rows_map(rows.take(0))) =~= start);
            }
            while i < n
                invariant
                    rows == own.rows(),
                    n == rows.len(),
                    i <= n,
                    table::distinct_rows(rows),
                    forall|k: Seq<char>| #[trigger]
                        merged@.dom().contains(k) <==> start.dom().contains(k) || exists|j: int|
                            0 <= j < i && (#[trigger] rows[j]).0 == k,
                    forall|j: int| 0 <= j < i ==> merged@[(#[trigger] rows[j]).0] == rows[j].1,
                    forall|k: Seq<char>|
                        start.dom().contains(k) && !(exists|j: int|
                            0 <= j < i && (#[trigger] rows[j]).0 == k) ==> #[trigger] merged@[k]
                            == start[k],
                decreases n - i,
            {
                let ghost before = merged@;
                merged.put(own.key_at(i).dup(), *own.value_at(i));
                proof {
                    let key = rows[i as int].0;
                    assert forall|k: Seq<char>| #[trigger]
                        merged@.dom().contains(k) <==> start.dom().contains(k) || exists|j: int|
                            0 <= j < i + 1 && (#[trigger] rows[j]).0 == k by {
                        if before.dom().contains(k) && !start.dom().contains(k) {
                            let j = choose|j: int| 0 <= j < i && (#[trigger] rows[j]).0 == k;
                            assert(rows[j].0 == k);
                        }
                        if k == key {
                            assert(rows[i as int].0 == k);
                        }
                    }
                    assert forall|j: int| 0 <= j < i + 1 implies merged@[(#[trigger] rows[j]).0]
                        == rows[j].1 by {
                        if j < i {
                            assert(rows[j].0 != rows[i as int].0);
                        }
                    }
                    assert forall|k: Seq<char>|
                        start.dom().contains(k) && !(exists|j: int|
                            0 <= j < i + 1 && (#[trigger] rows[j]).0 == k) implies #[trigger] merged@[k]
                        == start[k] by {
                        assert(k != key) by {
                            if k == key {
                                assert(rows[i as int].0 == k);
                            }
                        }
                        assert(!(exists|j: int| 0 <= j < i && (#[trigger] rows[j]).0 == k)) by {
                            if exists|j: int| 0 <= j < i && (#[trigger] rows[j]).0 == k {
                                let j = choose|j: int| 0 <= j < i && (#[trigger] rows[j]).0 == k;
                                assert(rows[j].0 == k);
                            }
                        }
                    }
                }
                i = i + 1;
            }
            let ghost want = start.union_prefer_right(own@);
            proof {
                assert forall|k: Seq<char>| #[trigger]
                    own@.dom().contains(k) == exists|j: int|
                        0 <= j < n && (#[trigger] rows[j]).0 == k by {
                    if own@.dom().contains(k) {
                        assert(rows[table::row_of(rows, k)].0 == k);
                    }
                    if exists|j: int| 0 <= j < n && (#[trigger] rows[j]).0 == k {
                        let j = choose|j: int| 0 <= j < n && (#[trigger] rows[j]).0 == k;
                        assert(own@.dom().contains(rows[j].0));
                    }
                }
                assert forall|k: Seq<char>| #[trigger] merged@.dom().contains(k) implies merged@[k]
                    == want[k] by {
                    if own@.dom().contains(k) {
                        assert(rows[table::row_of(rows, k)].0 == k);
                    }
                }
                assert(merged@ =~= want);
                if !m.sessions.dom().contains(to.deep_view()) {
                    assert(want =~= start);
                }
            }
            let ghost v = merged@;
            self.sessions.put(to.dup(), merged);
            assert(self.sessions@ =~= m.sessions.insert(to.deep_view(), v));
        }
        self.end_session(from);
    }
}

} // verus!
