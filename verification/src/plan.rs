//! Turning a workspace edit into an ordered, validated operation list.

use crate::diagnostics::{Position, Range};
use crate::error;
use crate::error::{Error, ErrorView};
use crate::order;
use crate::table::KeySet;
use crate::text;
use crate::text::decimal;
use crate::uris;
use crate::uris::{file_path_of, text_of};
use vstd::prelude::*;
use vstd::string::*;

verus! {

/// One replacement within a document.
#[derive(Clone, Debug, PartialEq, Eq)]
pub struct TextEdit {
    /// What to replace.
    pub range: Range,
    /// What to put there.
    pub new_text: String,
}

/// What a [`TextEdit`] stands for.
pub struct TextEditView {
    /// What to replace.
    pub range: Range,
    /// What to put there.
    pub new_text: Seq<char>,
}

impl DeepView for TextEdit {
    type V = TextEditView;

    open spec fn deep_view(&self) -> TextEditView {
        TextEditView { range: self.range, new_text: self.new_text@ }
    }
}

impl TextEdit {
    /// A second edit that says the same.
    pub fn dup(&self) -> (r: Self)
        ensures
            r.deep_view() == self.deep_view(),
    {
        TextEdit { range: self.range, new_text: self.new_text.clone() }
    }
}

/// The edits to one document.
#[derive(Clone, Debug, PartialEq, Eq)]
pub struct TextDocumentEdit {
    /// The document.
    pub uri: String,
    /// The version that the edits were computed against, where it is known.
    pub version: Option<i32>,
    /// The edits.
    pub edits: Vec<TextEdit>,
}

/// What a [`TextDocumentEdit`] stands for.
pub struct TextDocumentEditView {
    /// The document.
    pub uri: Seq<char>,
    /// The version that the edits were computed against, where it is known.
    pub version: Option<i32>,
    /// The edits.
    pub edits: Seq<TextEditView>,
}

impl DeepView for TextDocumentEdit {
    type V = TextDocumentEditView;

    open spec fn deep_view(&self) -> TextDocumentEditView {
        TextDocumentEditView {
            uri: self.uri@,
            version: self.version,
            edits: self.edits.deep_view(),
        }
    }
}

/// What to do where the created or new file already exists.
#[derive(Clone, Copy, Debug, PartialEq, Eq, Structural)]
pub struct OverwriteOptions {
    /// Replace it.
    pub overwrite: Option<bool>,
    /// Do nothing.
    pub ignore_if_exists: Option<bool>,
}

/// How to delete a file.
#[derive(Clone, Copy, Debug, PartialEq, Eq, Structural)]
pub struct DeleteOptions {
    /// Remove directory contents as well.
    pub recursive: Option<bool>,
    /// Do nothing where it is already gone.
    pub ignore_if_not_exists: Option<bool>,
}

/// A change to which files there are.
#[derive(Clone, Debug, PartialEq, Eq)]
pub enum ResourceOp {
    /// Create a file.
    Create {
        /// Its URI.
        uri: String,
        /// What to do where it exists.
        options: Option<OverwriteOptions>,
    },
    /// Move a file.
    Rename {
        /// Its URI before.
        old_uri: String,
        /// Its URI afterwards.
        new_uri: String,
        /// What to do where the new one exists.
        options: Option<OverwriteOptions>,
    },
    /// Remove a file.
    Delete {
        /// Its URI.
        uri: String,
        /// How to remove it.
        options: Option<DeleteOptions>,
    },
}

/// What a [`ResourceOp`] stands for.
pub enum ResourceOpView {
    /// Create a file.
    Create {
        /// Its URI.
        uri: Seq<char>,
        /// What to do where it exists.
        options: Option<OverwriteOptions>,
    },
    /// Move a file.
    Rename {
        /// Its URI before.
        old_uri: Seq<char>,
        /// Its URI afterwards.
        new_uri: Seq<char>,
        /// What to do where the new one exists.
        options: Option<OverwriteOptions>,
    },
    /// Remove a file.
    Delete {
        /// Its URI.
        uri: Seq<char>,
        /// How to remove it.
        options: Option<DeleteOptions>,
    },
}

impl DeepView for ResourceOp {
    type V = ResourceOpView;

    open spec fn deep_view(&self) -> ResourceOpView {
        match self {
            ResourceOp::Create { uri, options } => ResourceOpView::Create {
                uri: uri@,
                options: *options,
            },
            ResourceOp::Rename { old_uri, new_uri, options } => ResourceOpView::Rename {
                old_uri: old_uri@,
                new_uri: new_uri@,
                options: *options,
            },
            ResourceOp::Delete { uri, options } => ResourceOpView::Delete {
                uri: uri@,
                options: *options,
            },
        }
    }
}

/// One entry of a list that mixes edits with changes to which files there are.
#[derive(Clone, Debug, PartialEq, Eq)]
pub enum DocumentChangeOperation {
    /// Edits to one document.
    Edit(TextDocumentEdit),
    /// A change to which files there are.
    Op(ResourceOp),
}

/// What a [`DocumentChangeOperation`] stands for.
pub enum ChangeView {
    /// Edits to one document.
    Edit(TextDocumentEditView),
    /// A change to which files there are.
    Op(ResourceOpView),
}

impl DeepView for DocumentChangeOperation {
    type V = ChangeView;

    open spec fn deep_view(&self) -> ChangeView {
        match self {
            DocumentChangeOperation::Edit(edit) => ChangeView::Edit(edit.deep_view()),
            DocumentChangeOperation::Op(op) => ChangeView::Op(op.deep_view()),
        }
    }
}

/// The two shapes in which a server lists its changes.
#[derive(Clone, Debug, PartialEq, Eq)]
pub enum DocumentChanges {
    /// Edits alone.
    Edits(Vec<TextDocumentEdit>),
    /// Edits among changes to which files there are.
    Operations(Vec<DocumentChangeOperation>),
}

/// An edit to the workspace, as a server sends it.
#[derive(Clone, Debug, PartialEq, Eq)]
pub struct WorkspaceEdit {
    /// The older shape: the edits of each document.
    pub changes: Option<Vec<(String, Vec<TextEdit>)>>,
    /// The newer shape.
    pub document_changes: Option<DocumentChanges>,
}

impl WorkspaceEdit {
    /// An edit that changes nothing.
    pub fn empty() -> (r: Self)
        ensures
            r.changes is None,
            r.document_changes is None,
    {
        WorkspaceEdit { changes: None, document_changes: None }
    }
}

/// One step of an edit, in the order it must be performed.
#[derive(Clone, Debug, PartialEq, Eq)]
pub enum Operation {
    /// Replace ranges within one document.
    Edit {
        /// Document to edit.
        uri: String,
        /// Version the server computed the edit against, when it said.
        version: Option<i32>,
        /// Edits, ordered bottom-up.
        edits: Vec<TextEdit>,
    },
    /// Create a file.
    Create {
        /// Path to create.
        uri: String,
        /// Replace the file if it already exists.
        overwrite: bool,
        /// Do nothing if the file already exists.
        ignore_if_exists: bool,
    },
    /// Move a file.
    Rename {
        /// Current path.
        old: String,
        /// Path to move it to.
        new: String,
        /// Replace the destination if it already exists.
        overwrite: bool,
        /// Do nothing if the destination already exists.
        ignore_if_exists: bool,
    },
    /// Remove a file or directory.
    Delete {
        /// Path to remove.
        uri: String,
        /// Remove directory contents as well.
        recursive: bool,
        /// Do nothing if the path is already gone.
        ignore_if_not_exists: bool,
    },
}

/// What an [`Operation`] stands for.
pub enum OperationView {
    /// Replace ranges within one document.
    Edit {
        /// Document to edit.
        uri: Seq<char>,
        /// Version the server computed the edit against, when it said.
        version: Option<i32>,
        /// Edits, ordered bottom-up.
        edits: Seq<TextEditView>,
    },
    /// Create a file.
    Create {
        /// Path to create.
        uri: Seq<char>,
        /// Replace the file if it already exists.
        overwrite: bool,
        /// Do nothing if the file already exists.
        ignore_if_exists: bool,
    },
    /// Move a file.
    Rename {
        /// Current path.
        old: Seq<char>,
        /// Path to move it to.
        new: Seq<char>,
        /// Replace the destination if it already exists.
        overwrite: bool,
        /// Do nothing if the destination already exists.
        ignore_if_exists: bool,
    },
    /// Remove a file or directory.
    Delete {
        /// Path to remove.
        uri: Seq<char>,
        /// Remove directory contents as well.
        recursive: bool,
        /// Do nothing if the path is already gone.
        ignore_if_not_exists: bool,
    },
}

impl DeepView for Operation {
    type V = OperationView;

    open spec fn deep_view(&self) -> OperationView {
        match self {
            Operation::Edit { uri, version, edits } => OperationView::Edit {
                uri: uri@,
                version: *version,
                edits: edits.deep_view(),
            },
            Operation::Create { uri, overwrite, ignore_if_exists } => OperationView::Create {
                uri: uri@,
                overwrite: *overwrite,
                ignore_if_exists: *ignore_if_exists,
            },
            Operation::Rename { old, new, overwrite, ignore_if_exists } => OperationView::Rename {
                old: old@,
                new: new@,
                overwrite: *overwrite,
                ignore_if_exists: *ignore_if_exists,
            },
            Operation::Delete { uri, recursive, ignore_if_not_exists } => OperationView::Delete {
                uri: uri@,
                recursive: *recursive,
                ignore_if_not_exists: *ignore_if_not_exists,
            },
        }
    }
}

/// Whether one place comes before another.
pub open spec fn earlier(a: Position, b: Position) -> bool {
    a.line < b.line || (a.line == b.line && a.character < b.character)
}

/// Whether one place comes before another.
pub fn is_earlier(a: Position, b: Position) -> (r: bool)
    ensures
        r == earlier(a, b),
{
    a.line < b.line || (a.line == b.line && a.character < b.character)
}

/// The order in which the edits at two indices are spliced: the one that
/// starts later in the document first, and of two that start together the one
/// that the server listed last.
pub open spec fn splices_before(edits: Seq<TextEditView>) -> spec_fn(int, int) -> bool {
    |i: int, j: int|
        {
            ||| earlier(edits[j].range.start, edits[i].range.start)
            ||| edits[j].range.start == edits[i].range.start && i >= j
        }
}

/// The indices of the edits in the order in which they are spliced.
pub open spec fn splice_order(edits: Seq<TextEditView>) -> Seq<int> {
    Seq::new(edits.len(), |i: int| i).sort_by(splices_before(edits))
}

/// The edits in the order in which they are spliced.
pub open spec fn bottom_up(edits: Seq<TextEditView>) -> Seq<TextEditView> {
    Seq::new(splice_order(edits).len(), |k: int| edits[splice_order(edits)[k]])
}

/// Whether the edit behind the one at `i` reaches into it.
pub open spec fn reaches_into(edits: Seq<TextEditView>, i: int) -> bool {
    0 <= i < edits.len() - 1 && earlier(edits[i].range.start, edits[i + 1].range.end)
}

/// Whether `i` is the first place where an edit reaches into the one before it.
pub open spec fn first_overlap(edits: Seq<TextEditView>, i: int) -> bool {
    reaches_into(edits, i) && forall|j: int| j < i ==> !reaches_into(edits, j)
}

/// A place as messages show it.
pub open spec fn position_text(p: Position) -> Seq<char> {
    "Position { line: "@ + text::dec_text(p.line as nat) + ", character: "@ + text::dec_text(
        p.character as nat,
    ) + " }"@
}

/// A stretch as messages show it.
pub open spec fn range_text(r: Range) -> Seq<char> {
    "Range { start: "@ + position_text(r.start) + ", end: "@ + position_text(r.end) + " }"@
}

/// Why two overlapping edits are refused.
pub open spec fn overlap_message(uri: Seq<char>, lower: Range, upper: Range) -> Seq<char> {
    "overlapping edits in "@ + uri + ": "@ + range_text(lower) + " and "@ + range_text(upper)
}

/// The operation that edits one document.
pub open spec fn edit_operation(
    uri: Seq<char>,
    version: Option<i32>,
    edits: Seq<TextEditView>,
) -> Result<OperationView, ErrorView> {
    let sorted = bottom_up(edits);
    if exists|i: int| first_overlap(sorted, i) {
        let i = choose|i: int| first_overlap(sorted, i);
        Err(
            ErrorView::ApplyRefused(
                overlap_message(uri, sorted[i + 1].range, sorted[i].range),
            ),
        )
    } else {
        Ok(OperationView::Edit { uri, version, edits: sorted })
    }
}

/// A flag that is off unless it was given.
pub open spec fn given(flag: Option<bool>) -> bool {
    flag == Some(true)
}

/// The operation for a change to which files there are.
pub open spec fn resource_operation(op: ResourceOpView) -> OperationView {
    match op {
        ResourceOpView::Create { uri, options } => OperationView::Create {
            uri,
            overwrite: options is Some && given(options->Some_0.overwrite),
            ignore_if_exists: options is Some && given(options->Some_0.ignore_if_exists),
        },
        ResourceOpView::Rename { old_uri, new_uri, options } => OperationView::Rename {
            old: old_uri,
            new: new_uri,
            overwrite: options is Some && given(options->Some_0.overwrite),
            ignore_if_exists: options is Some && given(options->Some_0.ignore_if_exists),
        },
        ResourceOpView::Delete { uri, options } => OperationView::Delete {
            uri,
            recursive: options is Some && given(options->Some_0.recursive),
            ignore_if_not_exists: options is Some && given(
                options->Some_0.ignore_if_not_exists,
            ),
        },
    }
}

/// A change together with the documents it addresses.
#[derive(Clone, Debug, PartialEq, Eq)]
pub enum KeyedChange {
    /// Edits to the document that `key` identifies.
    Edit {
        /// The document's identity.
        key: String,
        /// The edits.
        edit: TextDocumentEdit,
    },
    /// A change after which other documents stand at the paths in `replaced`.
    Op {
        /// The identities of what it replaces.
        replaced: Vec<String>,
        /// The change.
        op: ResourceOp,
    },
}

/// What a [`KeyedChange`] stands for.
pub enum KeyedView {
    /// Edits to the document that `key` identifies.
    Edit {
        /// The document's identity.
        key: Seq<char>,
        /// The edits.
        edit: TextDocumentEditView,
    },
    /// A change after which other documents stand at the paths in `replaced`.
    Op {
        /// The identities of what it replaces.
        replaced: Seq<Seq<char>>,
        /// The change.
        op: ResourceOpView,
    },
}

impl DeepView for KeyedChange {
    type V = KeyedView;

    open spec fn deep_view(&self) -> KeyedView {
        match self {
            KeyedChange::Edit { key, edit } => KeyedView::Edit {
                key: key@,
                edit: edit.deep_view(),
            },
            KeyedChange::Op { replaced, op } => KeyedView::Op {
                replaced: replaced.deep_view(),
                op: op.deep_view(),
            },
        }
    }
}

/// Why a second entry for one document is refused.
pub open spec fn twice_message(uri: Seq<char>) -> Seq<char> {
    uri
        + " is addressed by two entries of one workspace edit: the second's ranges were computed against the text before the first, so applying both would corrupt it"@
}

/// Operations planned so far, and the documents that they have edited and not
/// since replaced.
pub struct Planned {
    /// The operations.
    pub operations: Seq<OperationView>,
    /// The edited documents.
    pub edited: Set<Seq<char>>,
}

/// One change more.
pub open spec fn plan_step(p: Planned, change: KeyedView) -> Result<Planned, ErrorView> {
    match change {
        KeyedView::Edit { key, edit } => if p.edited.contains(key) {
            Err(ErrorView::ApplyRefused(twice_message(edit.uri)))
        } else {
            match edit_operation(edit.uri, edit.version, edit.edits) {
                Ok(op) => Ok(
                    Planned { operations: p.operations.push(op), edited: p.edited.insert(key) },
                ),
                Err(e) => Err(e),
            }
        },
        KeyedView::Op { replaced, op } => Ok(
            Planned {
                operations: p.operations.push(resource_operation(op)),
                edited: p.edited.difference(replaced.to_set()),
            },
        ),
    }
}

/// The plan for a list of changes.
pub open spec fn planned(changes: Seq<KeyedView>) -> Result<Planned, ErrorView>
    decreases changes.len(),
{
    if changes.len() == 0 {
        Ok(Planned { operations: Seq::empty(), edited: Set::empty() })
    } else {
        match planned(changes.drop_last()) {
            Ok(p) => plan_step(p, changes.last()),
            Err(e) => Err(e),
        }
    }
}

/// The operations of the plan for a list of changes.
pub open spec fn planned_operations(changes: Seq<KeyedView>) -> Result<
    Seq<OperationView>,
    ErrorView,
> {
    match planned(changes) {
        Ok(p) => Ok(p.operations),
        Err(e) => Err(e),
    }
}

/// The identity of the document that a URI addresses: the path it resolves to, as
/// text, or the URI itself where it names no file.
pub open spec fn document_key(uri: Seq<char>) -> Seq<char> {
    match uris::url_file_path(uri) {
        Ok(Some(path)) => uris::lossy_text(path),
        _ => uri,
    }
}

/// The documents that a change replaces.
pub open spec fn replaced_keys(op: ResourceOpView) -> Seq<Seq<char>> {
    match op {
        ResourceOpView::Create { uri, .. } => seq![document_key(uri)],
        ResourceOpView::Rename { old_uri, new_uri, .. } => seq![
            document_key(old_uri),
            document_key(new_uri),
        ],
        ResourceOpView::Delete { uri, .. } => seq![document_key(uri)],
    }
}

/// A change with the documents that it addresses.
pub open spec fn keyed(change: ChangeView) -> KeyedView {
    match change {
        ChangeView::Edit(edit) => KeyedView::Edit { key: document_key(edit.uri), edit },
        ChangeView::Op(op) => KeyedView::Op { replaced: replaced_keys(op), op },
    }
}

/// The plan for the older shape, in which each document stands once.
pub open spec fn planned_changes(
    changes: Seq<(Seq<char>, Seq<TextEditView>)>,
) -> Result<Seq<OperationView>, ErrorView>
    decreases changes.len(),
{
    if changes.len() == 0 {
        Ok(Seq::empty())
    } else {
        match planned_changes(changes.drop_last()) {
            Err(e) => Err(e),
            Ok(operations) => match edit_operation(changes.last().0, None, changes.last().1) {
                Ok(op) => Ok(operations.push(op)),
                Err(e) => Err(e),
            },
        }
    }
}

/// The changes of a list that holds edits alone.
pub open spec fn edits_as_changes(edits: Seq<TextDocumentEditView>) -> Seq<ChangeView> {
    edits.map(|_i, edit: TextDocumentEditView| ChangeView::Edit(edit))
}

/// The operations for a workspace edit.
pub open spec fn plan_of(edit: WorkspaceEdit) -> Result<Seq<OperationView>, ErrorView> {
    match edit.document_changes {
        Some(DocumentChanges::Edits(edits)) => planned_operations(
            edits_as_changes(edits.deep_view()).map(|_i, c: ChangeView| keyed(c)),
        ),
        Some(DocumentChanges::Operations(ops)) => planned_operations(
            ops.deep_view().map(|_i, c: ChangeView| keyed(c)),
        ),
        None => match edit.changes {
            Some(changes) => planned_changes(changes.deep_view()),
            None => Ok(Seq::empty()),
        },
    }
}

proof fn lemma_splices_before_total(edits: Seq<TextEditView>)
    ensures
        vstd::relations::total_ordering(splices_before(edits)),
{
}

fn position_words(p: Position) -> (r: String)
    ensures
        r@ == position_text(p),
{
    let mut r = "Position { line: ".to_owned();
    r.append(decimal(p.line as u64).as_str());
    r.append(", character: ");
    r.append(decimal(p.character as u64).as_str());
    r.append(" }");
    r
}

/// A stretch in words.
pub fn range_words(range: Range) -> (r: String)
    ensures
        r@ == range_text(range),
{
    let mut r = "Range { start: ".to_owned();
    r.append(position_words(range.start).as_str());
    r.append(", end: ");
    r.append(position_words(range.end).as_str());
    r.append(" }");
    r
}

/// The edits in the order in which they are spliced.
fn sorted_bottom_up(edits: &Vec<TextEdit>) -> (r: Vec<TextEdit>)
    ensures
        r.deep_view() == bottom_up(edits.deep_view()),
{
    let ghost all = edits.deep_view();
    let ghost order = splices_before(all);
    let ghost every = Seq::new(all.len(), |i: int| i);
    let mut indices: Vec<usize> = Vec::new();
    let ghost mut placed: Seq<int> = Seq::empty();
    proof {
        lemma_splices_before_total(all);
        assert(every.take(0) =~= Seq::<int>::empty());
    }
    let mut i: usize = 0;
    while i < edits.len()
        invariant
            i <= edits.len(),
            all == edits.deep_view(),
            all.len() == edits.len(),
            order == splices_before(all),
            every == Seq::new(all.len(), |i: int| i),
            vstd::relations::total_ordering(order),
            placed == indices@.map_values(|n: usize| n as int),
            forall|k: int| 0 <= k < indices@.len() ==> #[trigger] indices@[k] < i,
            vstd::relations::sorted_by(placed, order),
            placed.to_multiset() == every.take(i as int).to_multiset(),
        decreases edits.len() - i,
    {
        let mut at: usize = indices.len();
        while at > 0 && !is_earlier(edits[i].range.start, edits[indices[at - 1]].range.start)
            invariant
                i < edits.len(),
                at <= indices.len(),
                all == edits.deep_view(),
                all.len() == edits.len(),
                order == splices_before(all),
                vstd::relations::total_ordering(order),
                placed == indices@.map_values(|n: usize| n as int),
            forall|k: int| 0 <= k < indices@.len() ==> #[trigger] indices@[k] < i,
                vstd::relations::sorted_by(placed, order),
                forall|j: int| at <= j < placed.len() ==> order(i as int, #[trigger] placed[j]),
            decreases at,
        {
            at = at - 1;
        }
        proof {
            assert forall|j: int| 0 <= j < at implies order(#[trigger] placed[j], i as int) by {
                assert(order(placed[at - 1], i as int));
                if j < at - 1 {
                    assert(order(placed[j], placed[at - 1]));
                }
            }
            order::lemma_insert_in_order(placed, at as int, i as int, order);
            placed = placed.insert(at as int, i as int);
            let taken = every.take(i as int);
            assert(every.take(i + 1) =~= taken.push(i as int));
            taken.to_multiset_ensures();
        }
        let ghost before = indices@;
        indices.insert(at, i);
        i = i + 1;
        proof {
            assert(placed =~= indices@.map_values(|n: usize| n as int));
            assert forall|k: int| 0 <= k < indices@.len() implies #[trigger] indices@[k] < i by {
                if k != at {
                    assert(indices@[k] == before[if k < at { k } else { k - 1 }]);
                }
            }
        }
    }
    proof {
        assert(every.take(i as int) =~= every);
        order::lemma_in_order_is_sorted(placed, every, order);
    }
    let mut r: Vec<TextEdit> = Vec::new();
    let mut k: usize = 0;
    while k < indices.len()
        invariant
            k <= indices.len(),
            all == edits.deep_view(),
            all.len() == edits.len(),
            placed == splice_order(all),
            placed == indices@.map_values(|n: usize| n as int),
            forall|k: int| 0 <= k < indices@.len() ==> #[trigger] indices@[k] < all.len(),
            r.deep_view() == bottom_up(all).take(k as int),
        decreases indices.len() - k,
    {
        let ghost before = r.deep_view();
        r.push(edits[indices[k]].dup());
        k = k + 1;
        assert(r.deep_view() =~= before.push(bottom_up(all)[k - 1]));
        assert(bottom_up(all).take(k as int) =~= before.push(bottom_up(all)[k - 1]));
    }
    assert(bottom_up(all).take(k as int) =~= bottom_up(all));
    r
}

/// The operation that edits one document.
pub fn plan_edit(uri: String, version: Option<i32>, edits: Vec<TextEdit>) -> (r: Result<
    Operation,
    Error,
>)
    ensures
        error::outcome(r) == edit_operation(uri@, version, edits.deep_view()),
{
    let sorted = sorted_bottom_up(&edits);
    let ghost view = sorted.deep_view();
    let mut i: usize = 0;
    while i < sorted.len() && sorted.len() - i > 1
        invariant
            view == sorted.deep_view(),
            view == bottom_up(edits.deep_view()),
            i <= sorted.len(),
            forall|j: int| j < i ==> !reaches_into(view, j),
        decreases sorted.len() - i,
    {
        if is_earlier(sorted[i].range.start, sorted[i + 1].range.end) {
            let mut m = "overlapping edits in ".to_owned();
            m.append(uri.as_str());
            m.append(": ");
            m.append(range_words(sorted[i + 1].range).as_str());
            m.append(" and ");
            m.append(range_words(sorted[i].range).as_str());
            proof {
                assert(first_overlap(view, i as int));
                let c = choose|c: int| first_overlap(view, c);
                assert(c == i) by {
                    assert(reaches_into(view, c));
                    assert(reaches_into(view, i as int));
                }
            }
            return Err(Error::ApplyRefused(m));
        }
        i = i + 1;
    }
    Ok(Operation::Edit { uri, version, edits: sorted })
}

/// The operation for a change to which files there are.
pub fn plan_resource(op: ResourceOp) -> (r: Operation)
    ensures
        r.deep_view() == resource_operation(op.deep_view()),
{
    match op {
        ResourceOp::Create { uri, options } => {
            let (overwrite, ignore_if_exists) = match options {
                Some(o) => (o.overwrite == Some(true), o.ignore_if_exists == Some(true)),
                None => (false, false),
            };
            Operation::Create { uri, overwrite, ignore_if_exists }
        },
        ResourceOp::Rename { old_uri, new_uri, options } => {
            let (overwrite, ignore_if_exists) = match options {
                Some(o) => (o.overwrite == Some(true), o.ignore_if_exists == Some(true)),
                None => (false, false),
            };
            Operation::Rename { old: old_uri, new: new_uri, overwrite, ignore_if_exists }
        },
        ResourceOp::Delete { uri, options } => {
            let (recursive, ignore_if_not_exists) = match options {
                Some(o) => (o.recursive == Some(true), o.ignore_if_not_exists == Some(true)),
                None => (false, false),
            };
            Operation::Delete { uri, recursive, ignore_if_not_exists }
        },
    }
}

/// Second copies of a list of edits.
pub fn dup_edits(edits: &Vec<TextEdit>) -> (r: Vec<TextEdit>)
    ensures
        r.deep_view() == edits.deep_view(),
{
    let mut r: Vec<TextEdit> = Vec::new();
    let ghost all = edits.deep_view();
    let mut i: usize = 0;
    while i < edits.len()
        invariant
            i <= edits.len(),
            all == edits.deep_view(),
            r.deep_view() == all.take(i as int),
        decreases edits.len() - i,
    {
        let ghost before = r.deep_view();
        r.push(edits[i].dup());
        i = i + 1;
        assert(r.deep_view() =~= before.push(all[i - 1]));
        assert(all.take(i as int) =~= before.push(all[i - 1]));
    }
    assert(all.take(i as int) =~= all);
    r
}

impl TextDocumentEdit {
    /// A second value that says the same.
    pub fn dup(&self) -> (r: Self)
        ensures
            r.deep_view() == self.deep_view(),
    {
        TextDocumentEdit {
            uri: self.uri.clone(),
            version: self.version,
            edits: dup_edits(&self.edits),
        }
    }
}

impl ResourceOp {
    /// A second value that says the same.
    pub fn dup(&self) -> (r: Self)
        ensures
            r.deep_view() == self.deep_view(),
    {
        match self {
            ResourceOp::Create { uri, options } => ResourceOp::Create {
                uri: uri.clone(),
                options: *options,
            },
            ResourceOp::Rename { old_uri, new_uri, options } => ResourceOp::Rename {
                old_uri: old_uri.clone(),
                new_uri: new_uri.clone(),
                options: *options,
            },
            ResourceOp::Delete { uri, options } => ResourceOp::Delete {
                uri: uri.clone(),
                options: *options,
            },
        }
    }
}

/// The identity of the document that a URI addresses.
fn key_of(uri: &str) -> (r: String)
    ensures
        r@ == document_key(uri@),
{
    match file_path_of(uri) {
        Ok(Some(path)) => text_of(path.as_slice()),
        _ => uri.to_owned(),
    }
}

/// The documents that a change replaces.
fn keys_replaced(op: &ResourceOp) -> (r: Vec<String>)
    ensures
        r.deep_view() == replaced_keys(op.deep_view()),
{
    let mut r: Vec<String> = Vec::new();
    match op {
        ResourceOp::Create { uri, .. } => {
            r.push(key_of(uri));
        },
        ResourceOp::Rename { old_uri, new_uri, .. } => {
            r.push(key_of(old_uri));
            r.push(key_of(new_uri));
        },
        ResourceOp::Delete { uri, .. } => {
            r.push(key_of(uri));
        },
    }
    assert(r.deep_view() =~= replaced_keys(op.deep_view()));
    r
}

/// A change with the documents that it addresses.
fn with_key(change: &DocumentChangeOperation) -> (r: KeyedChange)
    ensures
        r.deep_view() == keyed(change.deep_view()),
{
    match change {
        DocumentChangeOperation::Edit(edit) => KeyedChange::Edit {
            key: key_of(&edit.uri),
            edit: edit.dup(),
        },
        DocumentChangeOperation::Op(op) => KeyedChange::Op {
            replaced: keys_replaced(op),
            op: op.dup(),
        },
    }
}

/// Record that the document at `key` is being edited, refusing a second entry
/// for a document already edited and not since replaced.
fn claim_document(already_edited: &mut KeySet<String>, key: &String, uri: &str) -> (r: Result<
    (),
    Error,
>)
    ensures
        match r {
            Ok(()) => !old(already_edited)@.contains(key@) && final(already_edited)@ == old(
                already_edited,
            )@.insert(key@),
            Err(e) => old(already_edited)@.contains(key@) && e.deep_view()
                == ErrorView::ApplyRefused(twice_message(uri@)),
        },
{
    if already_edited.has(key) {
        let mut m = uri.to_owned();
        m.append(
            " is addressed by two entries of one workspace edit: the second's ranges were computed against the text before the first, so applying both would corrupt it",
        );
        return Err(Error::ApplyRefused(m));
    }
    already_edited.add(key.clone());
    Ok(())
}

/// Forget the documents in `replaced`, so that a later entry may address them
/// again.
fn release_documents(already_edited: &mut KeySet<String>, replaced: &Vec<String>)
    ensures
        final(already_edited)@ == old(already_edited)@.difference(replaced.deep_view().to_set()),
{
    let ghost all = replaced.deep_view();
    let ghost start = already_edited@;
    let mut i: usize = 0;
    assert(start =~= start.difference(all.take(0).to_set()));
    while i < replaced.len()
        invariant
            i <= replaced.len(),
            all == replaced.deep_view(),
            already_edited@ == start.difference(all.take(i as int).to_set()),
        decreases replaced.len() - i,
    {
        let ghost before = all.take(i as int);
        already_edited.remove(&replaced[i]);
        i = i + 1;
        proof {
            let after = all.take(i as int);
            assert(after =~= before.push(all[i - 1]));
            assert forall|k: Seq<char>| after.contains(k) == (before.contains(k) || k == all[i
                - 1]) by {
                if before.contains(k) {
                    let j = choose|j: int| 0 <= j < before.len() && before[j] == k;
                    assert(after[j] == k);
                }
                assert(after[i - 1] == all[i - 1]);
            }
            assert(already_edited@ =~= start.difference(after.to_set()));
        }
    }
    assert(all.take(i as int) =~= all);
}

/// A workspace edit normalized into operations that can be executed in order.
#[derive(Clone, Debug, PartialEq, Eq)]
pub struct EditPlan {
    operations: Vec<Operation>,
}

impl DeepView for EditPlan {
    type V = Seq<OperationView>;

    closed spec fn deep_view(&self) -> Seq<OperationView> {
        self.operations.deep_view()
    }
}

impl EditPlan {
    /// The normalized operations, in execution order.
    pub fn operations(&self) -> (r: &Vec<Operation>)
        ensures
            r.deep_view() == self.deep_view(),
    {
        &self.operations
    }

    /// Plan changes whose documents are already identified.
    ///
    /// Operations keep their order. A document addressed by two entries with
    /// no change to it in between is refused, and so are overlapping edits.
    pub fn from_keyed(changes: Vec<KeyedChange>) -> (r: Result<Self, Error>)
        ensures
            error::outcome(r) == planned_operations(changes.deep_view()),
    {
        let ghost all = changes.deep_view();
        let mut operations: Vec<Operation> = Vec::new();
        let mut edited: KeySet<String> = KeySet::new();
        assert(operations.deep_view() =~= Seq::<OperationView>::empty());
        let mut i: usize = 0;
        while i < changes.len()
            invariant
                i <= changes.len(),
                all == changes.deep_view(),
                all.len() == changes.len(),
                planned(all.take(i as int)) == Ok::<Planned, ErrorView>(
                    (Planned { operations: operations.deep_view(), edited: edited@ }),
                ),
            decreases changes.len() - i,
        {
            let ghost before = operations.deep_view();
            proof {
                let next = all.take(i + 1);
                assert(next.drop_last() =~= all.take(i as int));
                assert(next.last() == all[i as int]);
            }
            let op = match &changes[i] {
                KeyedChange::Edit { key, edit } => {
                    match claim_document(&mut edited, key, &edit.uri) {
                        Ok(()) => (),
                        Err(e) => {
                            proof {
                                lemma_first_error_stays(all, i + 1);
                            }
                            return Err(e);
                        },
                    }
                    match plan_edit(edit.uri.clone(), edit.version, dup_edits(&edit.edits)) {
                        Ok(op) => op,
                        Err(e) => {
                            proof {
                                lemma_first_error_stays(all, i + 1);
                            }
                            return Err(e);
                        },
                    }
                },
                KeyedChange::Op { replaced, op } => {
                    release_documents(&mut edited, replaced);
                    plan_resource(op.dup())
                },
            };
            let ghost view = op.deep_view();
            operations.push(op);
            assert(operations.deep_view() =~= before.push(view));
            i = i + 1;
        }
        assert(all.take(i as int) =~= all);
        Ok(EditPlan { operations })
    }

    /// Normalize `edit`.
    ///
    /// Accepts all three shapes a server may send. The newer shape wins when
    /// both are present. Operations keep their order; edits within a document
    /// are ordered bottom-up.
    pub fn from_workspace_edit(edit: WorkspaceEdit) -> (r: Result<Self, Error>)
        ensures
            error::outcome(r) == plan_of(edit),
    {
        Self::of_edit(&edit)
    }

    pub(crate) fn of_edit(edit: &WorkspaceEdit) -> (r: Result<Self, Error>)
        ensures
            error::outcome(r) == plan_of(*edit),
    {
        match &edit.document_changes {
            Some(DocumentChanges::Edits(edits)) => {
                let ghost all = edits.deep_view();
                let ghost target = edits_as_changes(all).map(|_i, c: ChangeView| keyed(c));
                let mut changes: Vec<KeyedChange> = Vec::new();
                let mut i: usize = 0;
                assert(changes.deep_view() =~= target.take(0));
                while i < edits.len()
                    invariant
                        i <= edits.len(),
                        all == edits.deep_view(),
                        target == edits_as_changes(all).map(|_i, c: ChangeView| keyed(c)),
                        changes.deep_view() == target.take(i as int),
                    decreases edits.len() - i,
                {
                    let ghost before = changes.deep_view();
                    changes.push(
                        KeyedChange::Edit { key: key_of(&edits[i].uri), edit: edits[i].dup() },
                    );
                    i = i + 1;
                    assert(changes.deep_view() =~= before.push(target[i - 1]));
                    assert(target.take(i as int) =~= before.push(target[i - 1]));
                }
                assert(target.take(i as int) =~= target);
                Self::from_keyed(changes)
            },
            Some(DocumentChanges::Operations(ops)) => {
                let ghost all = ops.deep_view();
                let ghost target = all.map(|_i, c: ChangeView| keyed(c));
                let mut changes: Vec<KeyedChange> = Vec::new();
                let mut i: usize = 0;
                assert(changes.deep_view() =~= target.take(0));
                while i < ops.len()
                    invariant
                        i <= ops.len(),
                        all == ops.deep_view(),
                        target == all.map(|_i, c: ChangeView| keyed(c)),
                        changes.deep_view() == target.take(i as int),
                    decreases ops.len() - i,
                {
                    let ghost before = changes.deep_view();
                    changes.push(with_key(&ops[i]));
                    i = i + 1;
                    assert(changes.deep_view() =~= before.push(target[i - 1]));
                    assert(target.take(i as int) =~= before.push(target[i - 1]));
                }
                assert(target.take(i as int) =~= target);
                Self::from_keyed(changes)
            },
            None => match &edit.changes {
                Some(changes) => Self::from_changes(changes),
                None => {
                    let operations: Vec<Operation> = Vec::new();
                    assert(operations.deep_view() =~= Seq::<OperationView>::empty());
                    Ok(EditPlan { operations })
                },
            },
        }
    }

    fn from_changes(changes: &Vec<(String, Vec<TextEdit>)>) -> (r: Result<Self, Error>)
        ensures
            error::outcome(r) == planned_changes(changes.deep_view()),
    {
        let mut operations: Vec<Operation> = Vec::new();
        assert(operations.deep_view() =~= Seq::<OperationView>::empty());
        let ghost all = changes.deep_view();
        let mut i: usize = 0;
        while i < changes.len()
            invariant
                i <= changes.len(),
                all == changes.deep_view(),
                planned_changes(all.take(i as int)) == Ok::<Seq<OperationView>, ErrorView>(
                    operations.deep_view(),
                ),
            decreases changes.len() - i,
        {
            let ghost before = operations.deep_view();
            proof {
                let next = all.take(i + 1);
                assert(next.drop_last() =~= all.take(i as int));
                assert(next.last() == all[i as int]);
            }
            match plan_edit(changes[i].0.clone(), None, dup_edits(&changes[i].1)) {
                Ok(op) => {
                    let ghost view = op.deep_view();
                    operations.push(op);
                    assert(operations.deep_view() =~= before.push(view));
                },
                Err(e) => {
                    proof {
                        lemma_first_change_error_stays(all, i + 1);
                    }
                    return Err(e);
                },
            }
            i = i + 1;
        }
        assert(all.take(i as int) =~= all);
        Ok(EditPlan { operations })
    }
}

proof fn lemma_first_error_stays(changes: Seq<KeyedView>, n: int)
    requires
        0 <= n <= changes.len(),
        planned(changes.take(n)) is Err,
    ensures
        planned(changes) == planned(changes.take(n)),
    decreases changes.len() - n,
{
    if n < changes.len() {
        let next = changes.take(n + 1);
        assert(next.drop_last() =~= changes.take(n));
        lemma_first_error_stays(changes, n + 1);
    } else {
        assert(changes.take(n) =~= changes);
    }
}

proof fn lemma_first_change_error_stays(
    changes: Seq<(Seq<char>, Seq<TextEditView>)>,
    n: int,
)
    requires
        0 <= n <= changes.len(),
        planned_changes(changes.take(n)) is Err,
    ensures
        planned_changes(changes) == planned_changes(changes.take(n)),
    decreases changes.len() - n,
{
    if n < changes.len() {
        let next = changes.take(n + 1);
        assert(next.drop_last() =~= changes.take(n));
        lemma_first_change_error_stays(changes, n + 1);
    } else {
        assert(changes.take(n) =~= changes);
    }
}

/// Every edit is spliced exactly once.
pub proof fn law_every_edit_is_spliced_once(edits: Seq<TextEditView>)
    ensures
        splice_order(edits).len() == edits.len(),
        forall|i: int| 0 <= i < edits.len() ==> #[trigger] splice_order(edits).contains(i),
        splice_order(edits).no_duplicates(),
        forall|k: int|
            0 <= k < edits.len() ==> 0 <= #[trigger] splice_order(edits)[k] < edits.len(),
{
    let every = Seq::new(edits.len(), |i: int| i);
    let order = splices_before(edits);
    lemma_splices_before_total(edits);
    every.lemma_sort_by_ensures(order);
    let sorted = splice_order(edits);
    every.to_multiset_ensures();
    sorted.to_multiset_ensures();
    assert(sorted.len() == sorted.to_multiset().len());
    assert forall|i: int| 0 <= i < edits.len() implies #[trigger] sorted.contains(i) by {
        assert(every[i] == i);
        assert(every.contains(i));
        assert(every.to_multiset().count(i) > 0);
        assert(sorted.to_multiset().count(i) > 0);
    }
    assert forall|k: int| 0 <= k < edits.len() implies 0 <= #[trigger] sorted[k] < edits.len() by {
        assert(sorted.contains(sorted[k]));
        assert(sorted.to_multiset().count(sorted[k]) > 0);
        assert(every.contains(sorted[k]));
    }
    assert(every.no_duplicates());
    every.lemma_multiset_has_no_duplicates();
    assert forall|x: int| sorted.to_multiset().contains(x) implies sorted.to_multiset().count(x)
        == 1 by {
        assert(every.to_multiset().contains(x));
    }
    sorted.lemma_multiset_has_no_duplicates_conv();
}

/// Of two edits the one that starts later in the document is spliced first,
/// and of two that start together the one that the server listed last: text
/// inserted at one place then reads in the server's order.
pub proof fn law_edits_are_spliced_from_the_bottom(edits: Seq<TextEditView>, p: int, q: int)
    requires
        0 <= p < q < edits.len(),
    ensures
        ({
            let first = splice_order(edits)[p];
            let second = splice_order(edits)[q];
            ||| earlier(edits[second].range.start, edits[first].range.start)
            ||| edits[second].range.start == edits[first].range.start && first > second
        }),
{
    law_every_edit_is_spliced_once(edits);
    lemma_splices_before_total(edits);
    let every = Seq::new(edits.len(), |i: int| i);
    every.lemma_sort_by_ensures(splices_before(edits));
    assert(splices_before(edits)(splice_order(edits)[p], splice_order(edits)[q]));
}

/// In a plan, an edit ends no later than every edit spliced before it starts:
/// splicing leaves every later range valid.
pub proof fn law_splicing_leaves_later_ranges_valid(
    uri: Seq<char>,
    version: Option<i32>,
    edits: Seq<TextEditView>,
    p: int,
    q: int,
)
    requires
        edit_operation(uri, version, edits) is Ok,
        0 <= p < q < edits.len(),
    ensures
        !earlier(bottom_up(edits)[p].range.start, bottom_up(edits)[q].range.end),
    decreases q - p,
{
    let sorted = bottom_up(edits);
    law_every_edit_is_spliced_once(edits);
    if p + 1 < q {
        law_edits_are_spliced_from_the_bottom(edits, p, q - 1);
    }
    lemma_no_overlap(sorted, q - 1);
}

proof fn lemma_no_overlap(sorted: Seq<TextEditView>, i: int)
    requires
        !exists|i: int| first_overlap(sorted, i),
    ensures
        !reaches_into(sorted, i),
    decreases i,
{
    if reaches_into(sorted, i) {
        assert forall|j: int| j < i implies !reaches_into(sorted, j) by {
            if 0 <= j {
                lemma_no_overlap(sorted, j);
            }
        }
        assert(first_overlap(sorted, i));
    }
}

/// Two edits of one document are refused exactly where, in splicing order, one
/// reaches into the next.
pub proof fn law_overlap_is_refused(
    uri: Seq<char>,
    version: Option<i32>,
    edits: Seq<TextEditView>,
    i: int,
)
    requires
        reaches_into(bottom_up(edits), i),
    ensures
        edit_operation(uri, version, edits) is Err,
{
    if !exists|j: int| first_overlap(bottom_up(edits), j) {
        lemma_no_overlap(bottom_up(edits), i);
    }
}

/// A plan has one operation for each change, in the order of the changes.
pub proof fn law_operations_keep_their_order(changes: Seq<KeyedView>)
    requires
        planned(changes) is Ok,
    ensures
        planned(changes)->Ok_0.operations.len() == changes.len(),
        forall|i: int|
            0 <= i < changes.len() ==> match #[trigger] changes[i] {
                KeyedView::Edit { edit, .. } => edit_operation(
                    edit.uri,
                    edit.version,
                    edit.edits,
                ) == Ok::<OperationView, ErrorView>(planned(changes)->Ok_0.operations[i]),
                KeyedView::Op { op, .. } => resource_operation(op) == planned(
                    changes,
                )->Ok_0.operations[i],
            },
    decreases changes.len(),
{
    if changes.len() > 0 {
        law_operations_keep_their_order(changes.drop_last());
        let before = planned(changes.drop_last())->Ok_0.operations;
        let after = planned(changes)->Ok_0.operations;
        assert forall|i: int| 0 <= i < changes.len() implies match #[trigger] changes[i] {
            KeyedView::Edit { edit, .. } => edit_operation(edit.uri, edit.version, edit.edits)
                == Ok::<OperationView, ErrorView>(after[i]),
            KeyedView::Op { op, .. } => resource_operation(op) == after[i],
        } by {
            if i < changes.len() - 1 {
                assert(changes.drop_last()[i] == changes[i]);
                assert(before[i] == after[i]);
            }
        }
    }
}

/// Whether the change at `i` edits the document at `key`.
pub open spec fn edits_document(changes: Seq<KeyedView>, i: int, key: Seq<char>) -> bool {
    changes[i] is Edit && changes[i]->Edit_key == key
}

/// Whether the change at `i` replaces the document at `key`.
pub open spec fn replaces_document(changes: Seq<KeyedView>, i: int, key: Seq<char>) -> bool {
    changes[i] is Op && changes[i]->Op_replaced.contains(key)
}

/// In a plan, a document is edited a second time only after a change that
/// replaces that very document.
pub proof fn law_a_second_entry_needs_a_replacement(
    changes: Seq<KeyedView>,
    i: int,
    j: int,
    key: Seq<char>,
)
    requires
        planned(changes) is Ok,
        0 <= i < j < changes.len(),
        edits_document(changes, i, key),
        edits_document(changes, j, key),
    ensures
        exists|k: int| i < k < j && #[trigger] replaces_document(changes, k, key),
{
    if !exists|k: int| i < k < j && #[trigger] replaces_document(changes, k, key) {
        lemma_prefix_is_planned(changes, j + 1);
        lemma_prefix_is_planned(changes, j);
        lemma_still_edited(changes, i, j, key);
        let next = changes.take(j + 1);
        assert(next.drop_last() =~= changes.take(j));
        assert(next.last() == changes[j]);
    }
}

proof fn lemma_prefix_is_planned(changes: Seq<KeyedView>, n: int)
    requires
        planned(changes) is Ok,
        0 <= n <= changes.len(),
    ensures
        planned(changes.take(n)) is Ok,
{
    if planned(changes.take(n)) is Err {
        lemma_first_error_stays(changes, n);
    }
}

proof fn lemma_still_edited(changes: Seq<KeyedView>, i: int, n: int, key: Seq<char>)
    requires
        planned(changes) is Ok,
        0 <= i < n <= changes.len(),
        edits_document(changes, i, key),
        forall|k: int| i < k < n ==> !#[trigger] replaces_document(changes, k, key),
    ensures
        planned(changes.take(n)) is Ok,
        planned(changes.take(n))->Ok_0.edited.contains(key),
    decreases n,
{
    lemma_prefix_is_planned(changes, n);
    lemma_prefix_is_planned(changes, n - 1);
    let now = changes.take(n);
    assert(now.drop_last() =~= changes.take(n - 1));
    assert(now.last() == changes[n - 1]);
    if n - 1 > i {
        lemma_still_edited(changes, i, n - 1, key);
        assert(!replaces_document(changes, n - 1, key));
    }
}

} // verus!
