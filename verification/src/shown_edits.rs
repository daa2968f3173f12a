//! Edits and code actions as they are shown.

use crate::delivery::DiagnosticSnapshot;
use crate::diagnostics;
use crate::diagnostics::DiagnosticView;
use crate::encoding::PositionEncoding;
use crate::ledger::SourceView;
use crate::plan;
use crate::plan::{EditPlan, Operation, OperationView, TextEditView, WorkspaceEdit};
use crate::reply;
use crate::reply::{Diagnostic, Range, ShownView};
use crate::symbols;
use crate::text::same_text;
use vstd::prelude::*;
use vstd::string::*;

verus! {

/// What is known of the documents that a server's answer speaks of.
#[derive(Clone, Debug, PartialEq, Eq)]
pub struct EncodingCtx {
    /// The units that the server's columns count.
    pub encoding: PositionEncoding,
    /// The documents whose text is known, each with its text.
    pub texts: Vec<(String, String)>,
}

/// What an [`EncodingCtx`] stands for.
pub struct CtxView {
    /// The units that the server's columns count.
    pub encoding: PositionEncoding,
    /// The documents whose text is known, each with its text.
    pub texts: Seq<(Seq<char>, Seq<char>)>,
}

impl DeepView for EncodingCtx {
    type V = CtxView;

    open spec fn deep_view(&self) -> CtxView {
        CtxView { encoding: self.encoding, texts: self.texts.deep_view() }
    }
}

/// The text of a document: the first that is known for it.
pub open spec fn known_text(texts: Seq<(Seq<char>, Seq<char>)>, uri: Seq<char>) -> Option<Seq<char>>
    decreases texts.len(),
{
    if texts.len() == 0 {
        None
    } else if known_text(texts.drop_last(), uri) is Some {
        known_text(texts.drop_last(), uri)
    } else if texts.last().0 == uri {
        Some(texts.last().1)
    } else {
        None
    }
}

/// What a document's positions are read against.
pub open spec fn source_of(ctx: CtxView, uri: Seq<char>) -> SourceView {
    SourceView { uri, encoding: ctx.encoding, text: known_text(ctx.texts, uri) }
}

proof fn lemma_first_text_stays(texts: Seq<(Seq<char>, Seq<char>)>, uri: Seq<char>, n: int)
    requires
        0 <= n <= texts.len(),
        known_text(texts.take(n), uri) is Some,
    ensures
        known_text(texts, uri) == known_text(texts.take(n), uri),
    decreases texts.len() - n,
{
    if n < texts.len() {
        assert(texts.take(n + 1).drop_last() =~= texts.take(n));
        lemma_first_text_stays(texts, uri, n + 1);
    } else {
        assert(texts.take(n) =~= texts);
    }
}

impl EncodingCtx {
    /// What a document's positions are read against.
    pub fn source(&self, uri: &str) -> (r: DiagnosticSnapshot)
        ensures
            r.deep_view() == source_of(self.deep_view(), uri@),
    {
        let ghost all = self.texts.deep_view();
        let mut i: usize = 0;
        while i < self.texts.len()
            invariant
                i <= self.texts.len(),
                all == self.texts.deep_view(),
                known_text(all.take(i as int), uri@) is None,
            decreases self.texts.len() - i,
        {
            assert(all.take(i + 1).drop_last() =~= all.take(i as int));
            assert(all.take(i + 1).last() == self.texts@[i as int].deep_view());
            if same_text(self.texts[i].0.as_str(), uri) {
                proof {
                    lemma_first_text_stays(all, uri@, i + 1);
                }
                return DiagnosticSnapshot {
                    uri: uri.to_owned(),
                    encoding: self.encoding,
                    text: Some(self.texts[i].1.clone()),
                };
            }
            i = i + 1;
        }
        assert(all.take(i as int) =~= all);
        DiagnosticSnapshot { uri: uri.to_owned(), encoding: self.encoding, text: None }
    }

    /// A stretch of a document as its text shows it.
    pub fn normalize_range(&self, uri: &str, range: diagnostics::Range) -> (r: Range)
        ensures
            r == symbols::range_in(source_of(self.deep_view(), uri@), range),
    {
        self.source(uri).normalize_range(range)
    }
}

/// One replacement as it is shown.
#[derive(Clone, Debug, PartialEq, Eq)]
pub struct TextEdit {
    /// What it replaces.
    pub range: Range,
    /// What it puts there.
    pub new_text: String,
}

/// What a [`TextEdit`] stands for.
pub struct ShownEditView {
    /// What it replaces.
    pub range: Range,
    /// What it puts there.
    pub new_text: Seq<char>,
}

impl DeepView for TextEdit {
    type V = ShownEditView;

    open spec fn deep_view(&self) -> ShownEditView {
        ShownEditView { range: self.range, new_text: self.new_text@ }
    }
}

/// An edit as the text of its document shows it.
pub open spec fn shown_edit(source: SourceView, edit: TextEditView) -> ShownEditView {
    ShownEditView { range: symbols::range_in(source, edit.range), new_text: edit.new_text }
}

/// The edits as the text of their document shows them.
pub open spec fn shown_edits(source: SourceView, edits: Seq<TextEditView>) -> Seq<ShownEditView> {
    edits.map_values(|e: TextEditView| shown_edit(source, e))
}

/// The edits of one document as they are shown.
#[derive(Clone, Debug, PartialEq, Eq)]
pub struct DocumentChanges {
    /// The document.
    pub uri: String,
    /// The edits.
    pub edits: Vec<TextEdit>,
}

/// What a [`DocumentChanges`] stands for.
pub struct DocumentChangesView {
    /// The document.
    pub uri: Seq<char>,
    /// The edits.
    pub edits: Seq<ShownEditView>,
}

impl DeepView for DocumentChanges {
    type V = DocumentChangesView;

    open spec fn deep_view(&self) -> DocumentChangesView {
        DocumentChangesView { uri: self.uri@, edits: self.edits.deep_view() }
    }
}

/// A file-system operation as it is shown.
#[derive(Clone, Debug, PartialEq, Eq)]
pub struct ResourceOperation {
    /// What it does: `create`, `rename` or `delete`.
    pub kind: String,
    /// What it does it to.
    pub uri: String,
    /// Where a rename moves it.
    pub new_uri: Option<String>,
}

/// What a [`ResourceOperation`] stands for.
pub struct ResourceOperationView {
    /// What it does: `create`, `rename` or `delete`.
    pub kind: Seq<char>,
    /// What it does it to.
    pub uri: Seq<char>,
    /// Where a rename moves it.
    pub new_uri: Option<Seq<char>>,
}

impl DeepView for ResourceOperation {
    type V = ResourceOperationView;

    open spec fn deep_view(&self) -> ResourceOperationView {
        ResourceOperationView {
            kind: self.kind@,
            uri: self.uri@,
            new_uri: self.new_uri.deep_view(),
        }
    }
}

impl ResourceOperation {
    /// A second operation that says the same.
    pub fn dup(&self) -> (r: Self)
        ensures
            r.deep_view() == self.deep_view(),
    {
        ResourceOperation {
            kind: self.kind.clone(),
            uri: self.uri.clone(),
            new_uri: match &self.new_uri {
                Some(uri) => Some(uri.clone()),
                None => None,
            },
        }
    }
}

/// The edits of a plan, document by document.
pub open spec fn shown_changes(ctx: CtxView, operations: Seq<OperationView>) -> Seq<
    DocumentChangesView,
>
    decreases operations.len(),
{
    if operations.len() == 0 {
        Seq::empty()
    } else {
        let before = shown_changes(ctx, operations.drop_last());
        match operations.last() {
            OperationView::Edit { uri, version, edits } => before.push(
                DocumentChangesView { uri, edits: shown_edits(source_of(ctx, uri), edits) },
            ),
            _ => before,
        }
    }
}

/// The file-system operations of a plan, in their order.
pub open spec fn shown_operations(operations: Seq<OperationView>) -> Seq<ResourceOperationView>
    decreases operations.len(),
{
    if operations.len() == 0 {
        Seq::empty()
    } else {
        let before = shown_operations(operations.drop_last());
        match operations.last() {
            OperationView::Edit { .. } => before,
            OperationView::Create { uri, .. } => before.push(
                ResourceOperationView { kind: "create"@, uri, new_uri: None },
            ),
            OperationView::Rename { old: from, new, .. } => before.push(
                ResourceOperationView { kind: "rename"@, uri: from, new_uri: Some(new) },
            ),
            OperationView::Delete { uri, .. } => before.push(
                ResourceOperationView { kind: "delete"@, uri, new_uri: None },
            ),
        }
    }
}

/// The edits as the text of their document shows them.
pub fn show_edits(source: &DiagnosticSnapshot, edits: &Vec<plan::TextEdit>) -> (r: Vec<TextEdit>)
    ensures
        r.deep_view() == shown_edits(source.deep_view(), edits.deep_view()),
{
    let ghost all = shown_edits(source.deep_view(), edits.deep_view());
    let mut shown: Vec<TextEdit> = Vec::new();
    let mut i: usize = 0;
    assert(shown.deep_view() =~= all.take(0));
    while i < edits.len()
        invariant
            i <= edits.len(),
            all == shown_edits(source.deep_view(), edits.deep_view()),
            shown.deep_view() == all.take(i as int),
        decreases edits.len() - i,
    {
        let ghost before = shown.deep_view();
        let edit = TextEdit {
            range: source.normalize_range(edits[i].range),
            new_text: edits[i].new_text.clone(),
        };
        assert(edit.deep_view() == all[i as int]);
        shown.push(edit);
        assert(shown.deep_view() =~= before.push(all[i as int]));
        assert(all.take(i + 1) =~= before.push(all[i as int]));
        i = i + 1;
    }
    assert(all.take(i as int) =~= all);
    shown
}

/// The edits of a plan, document by document.
pub fn changes_from_plan(plan: &EditPlan, ctx: &EncodingCtx) -> (r: Vec<DocumentChanges>)
    ensures
        r.deep_view() == shown_changes(ctx.deep_view(), plan.deep_view()),
{
    let operations = plan.operations();
    let ghost all = operations.deep_view();
    let mut shown: Vec<DocumentChanges> = Vec::new();
    let mut i: usize = 0;
    assert(shown.deep_view() =~= Seq::<DocumentChangesView>::empty());
    while i < operations.len()
        invariant
            i <= operations.len(),
            all == operations.deep_view(),
            shown.deep_view() == shown_changes(ctx.deep_view(), all.take(i as int)),
        decreases operations.len() - i,
    {
        let ghost before = shown.deep_view();
        assert(all.take(i + 1).drop_last() =~= all.take(i as int));
        assert(all.take(i + 1).last() == operations@[i as int].deep_view());
        if let Operation::Edit { uri, version: _, edits } = &operations[i] {
            let source = ctx.source(uri.as_str());
            let change = DocumentChanges { uri: uri.clone(), edits: show_edits(&source, edits) };
            let ghost view = change.deep_view();
            shown.push(change);
            assert(shown.deep_view() =~= before.push(view));
        }
        i = i + 1;
    }
    assert(all.take(i as int) =~= all);
    shown
}

/// The file-system operations of a plan, in their order.
pub fn resource_operations_from_plan(plan: &EditPlan) -> (r: Vec<ResourceOperation>)
    ensures
        r.deep_view() == shown_operations(plan.deep_view()),
{
    let operations = plan.operations();
    let ghost all = operations.deep_view();
    let mut shown: Vec<ResourceOperation> = Vec::new();
    let mut i: usize = 0;
    assert(shown.deep_view() =~= Seq::<ResourceOperationView>::empty());
    while i < operations.len()
        invariant
            i <= operations.len(),
            all == operations.deep_view(),
            shown.deep_view() == shown_operations(all.take(i as int)),
        decreases operations.len() - i,
    {
        let ghost before = shown.deep_view();
        assert(all.take(i + 1).drop_last() =~= all.take(i as int));
        assert(all.take(i + 1).last() == operations@[i as int].deep_view());
        let next = match &operations[i] {
            Operation::Edit { .. } => None,
            Operation::Create { uri, .. } => Some(
                ResourceOperation { kind: "create".to_owned(), uri: uri.clone(), new_uri: None },
            ),
            Operation::Rename { old: from, new, .. } => Some(
                ResourceOperation {
                    kind: "rename".to_owned(),
                    uri: from.clone(),
                    new_uri: Some(new.clone()),
                },
            ),
            Operation::Delete { uri, .. } => Some(
                ResourceOperation { kind: "delete".to_owned(), uri: uri.clone(), new_uri: None },
            ),
        };
        if let Some(operation) = next {
            let ghost view = operation.deep_view();
            shown.push(operation);
            assert(shown.deep_view() =~= before.push(view));
        }
        i = i + 1;
    }
    assert(all.take(i as int) =~= all);
    shown
}

/// A command as a server sends it. An argument is held as its JSON text.
#[derive(Clone, Debug, PartialEq, Eq)]
pub struct Command {
    /// Its title.
    pub title: String,
    /// Its name.
    pub command: String,
    /// Its arguments.
    pub arguments: Option<Vec<String>>,
}

impl Command {
    /// A second command that says the same.
    pub fn dup(&self) -> (r: Self)
        ensures
            shown_command(r) == shown_command(*self),
    {
        let r = Command {
            title: self.title.clone(),
            command: self.command.clone(),
            arguments: match &self.arguments {
                Some(list) => Some(dup_texts(list)),
                None => None,
            },
        };
        r
    }
}

/// A command as it is shown.
#[derive(Clone, Debug, PartialEq, Eq)]
pub struct CommandDescription {
    /// Its title.
    pub title: String,
    /// Its name.
    pub command: String,
    /// Its arguments.
    pub arguments: Vec<String>,
}

/// What a [`CommandDescription`] stands for.
pub struct CommandView {
    /// Its title.
    pub title: Seq<char>,
    /// Its name.
    pub command: Seq<char>,
    /// Its arguments.
    pub arguments: Seq<Seq<char>>,
}

impl DeepView for CommandDescription {
    type V = CommandView;

    open spec fn deep_view(&self) -> CommandView {
        CommandView {
            title: self.title@,
            command: self.command@,
            arguments: self.arguments.deep_view(),
        }
    }
}

/// A command without arguments has an empty list of them.
pub open spec fn shown_command(command: Command) -> CommandView {
    CommandView {
        title: command.title@,
        command: command.command@,
        arguments: match command.arguments {
            Some(list) => list.deep_view(),
            None => Seq::empty(),
        },
    }
}

/// A list that says the same as `texts`.
pub fn dup_texts(texts: &Vec<String>) -> (r: Vec<String>)
    ensures
        r.deep_view() == texts.deep_view(),
{
    let ghost all = texts.deep_view();
    let mut copy: Vec<String> = Vec::new();
    let mut i: usize = 0;
    assert(copy.deep_view() =~= all.take(0));
    while i < texts.len()
        invariant
            i <= texts.len(),
            all == texts.deep_view(),
            copy.deep_view() == all.take(i as int),
        decreases texts.len() - i,
    {
        let ghost before = copy.deep_view();
        copy.push(texts[i].clone());
        assert(copy.deep_view() =~= before.push(all[i as int]));
        assert(all.take(i + 1) =~= before.push(all[i as int]));
        i = i + 1;
    }
    assert(all.take(i as int) =~= all);
    copy
}

/// A command as it is shown.
pub fn describe_command(command: &Command) -> (r: CommandDescription)
    ensures
        r.deep_view() == shown_command(*command),
{
    let arguments = match &command.arguments {
        Some(list) => dup_texts(list),
        None => Vec::new(),
    };
    assert(command.arguments is None ==> arguments.deep_view() =~= Seq::<Seq<char>>::empty());
    CommandDescription {
        title: command.title.clone(),
        command: command.command.clone(),
        arguments,
    }
}

/// A code action as a server sends it. What it takes to resolve it is held as
/// its JSON text.
#[derive(Clone, Debug, PartialEq, Eq)]
pub struct LspCodeAction {
    /// Its title.
    pub title: String,
    /// Its kind.
    pub kind: Option<String>,
    /// What it would mend.
    pub diagnostics: Option<Vec<diagnostics::Diagnostic>>,
    /// The edit it makes.
    pub edit: Option<WorkspaceEdit>,
    /// The command it runs.
    pub command: Option<Command>,
    /// Whether it is the one to prefer.
    pub is_preferred: Option<bool>,
    /// What the server wants back to resolve it.
    pub data: Option<String>,
}

/// An entry of a server's list of code actions.
#[derive(Clone, Debug, PartialEq, Eq)]
pub enum CodeActionOrCommand {
    /// A bare command.
    Command(Command),
    /// A code action.
    CodeAction(LspCodeAction),
}

/// An edit to the workspace as it is shown.
#[derive(Clone, Debug, PartialEq, Eq)]
pub struct WorkspaceEditDescription {
    /// The edits, document by document.
    pub changes: Vec<DocumentChanges>,
    /// The file-system operations.
    pub resource_operations: Vec<ResourceOperation>,
}

/// What a [`WorkspaceEditDescription`] stands for.
pub struct DescriptionView {
    /// The edits, document by document.
    pub changes: Seq<DocumentChangesView>,
    /// The file-system operations.
    pub resource_operations: Seq<ResourceOperationView>,
}

impl DeepView for WorkspaceEditDescription {
    type V = DescriptionView;

    open spec fn deep_view(&self) -> DescriptionView {
        DescriptionView {
            changes: self.changes.deep_view(),
            resource_operations: self.resource_operations.deep_view(),
        }
    }
}

/// A code action as it is shown.
#[derive(Clone, Debug, PartialEq, Eq)]
pub struct CodeAction {
    /// Its title.
    pub title: String,
    /// Its kind.
    pub kind: Option<String>,
    /// What it would mend.
    pub diagnostics: Vec<Diagnostic>,
    /// The edit it makes.
    pub edit: Option<WorkspaceEditDescription>,
    /// The command it runs.
    pub command: Option<CommandDescription>,
    /// Whether it is the one to prefer.
    pub is_preferred: bool,
    /// Its place in the list.
    pub index: usize,
}

/// What a [`CodeAction`] stands for.
pub struct CodeActionView {
    /// Its title.
    pub title: Seq<char>,
    /// Its kind.
    pub kind: Option<Seq<char>>,
    /// What it would mend.
    pub diagnostics: Seq<ShownView>,
    /// The edit it makes.
    pub edit: Option<DescriptionView>,
    /// The command it runs.
    pub command: Option<CommandView>,
    /// Whether it is the one to prefer.
    pub is_preferred: bool,
    /// Its place in the list.
    pub index: usize,
}

impl DeepView for CodeAction {
    type V = CodeActionView;

    open spec fn deep_view(&self) -> CodeActionView {
        CodeActionView {
            title: self.title@,
            kind: self.kind.deep_view(),
            diagnostics: self.diagnostics.deep_view(),
            edit: self.edit.deep_view(),
            command: self.command.deep_view(),
            is_preferred: self.is_preferred,
            index: self.index,
        }
    }
}

/// The diagnostics as the text of their document shows them.
pub open spec fn shown_diagnostics(source: SourceView, list: Seq<DiagnosticView>) -> Seq<
    ShownView,
> {
    list.map_values(|d: DiagnosticView| reply::shown(source, d))
}

/// An edit as it is shown. One that cannot be planned could not be applied
/// either: it is shown as no edit at all.
pub open spec fn described_edit(ctx: CtxView, edit: WorkspaceEdit) -> Option<DescriptionView> {
    match plan::plan_of(edit) {
        Ok(operations) => Some(
            DescriptionView {
                changes: shown_changes(ctx, operations),
                resource_operations: shown_operations(operations),
            },
        ),
        Err(_) => None,
    }
}

/// A code action on the document `uri`, as it is shown.
pub open spec fn converted(action: LspCodeAction, ctx: CtxView, uri: Seq<char>) -> CodeActionView {
    CodeActionView {
        title: action.title@,
        kind: action.kind.deep_view(),
        diagnostics: match action.diagnostics {
            Some(list) => shown_diagnostics(source_of(ctx, uri), list.deep_view()),
            None => Seq::empty(),
        },
        edit: match action.edit {
            Some(edit) => described_edit(ctx, edit),
            None => None,
        },
        command: match action.command {
            Some(command) => Some(shown_command(command)),
            None => None,
        },
        is_preferred: action.is_preferred == Some(true),
        index: 0,
    }
}

fn render_all(source: &DiagnosticSnapshot, list: &Vec<diagnostics::Diagnostic>) -> (r: Vec<
    Diagnostic,
>)
    ensures
        r.deep_view() == shown_diagnostics(source.deep_view(), list.deep_view()),
{
    let ghost all = shown_diagnostics(source.deep_view(), list.deep_view());
    let mut rendered: Vec<Diagnostic> = Vec::new();
    let mut i: usize = 0;
    assert(rendered.deep_view() =~= all.take(0));
    while i < list.len()
        invariant
            i <= list.len(),
            all == shown_diagnostics(source.deep_view(), list.deep_view()),
            rendered.deep_view() == all.take(i as int),
        decreases list.len() - i,
    {
        let ghost before = rendered.deep_view();
        let next = source.render(&list[i]);
        assert(next.deep_view() == all[i as int]);
        rendered.push(next);
        assert(rendered.deep_view() =~= before.push(all[i as int]));
        assert(all.take(i + 1) =~= before.push(all[i as int]));
        i = i + 1;
    }
    assert(all.take(i as int) =~= all);
    rendered
}

/// A code action on the document `uri`, as it is shown.
pub fn convert_code_action(action: &LspCodeAction, ctx: &EncodingCtx, uri: &str) -> (r: CodeAction)
    ensures
        r.deep_view() == converted(*action, ctx.deep_view(), uri@),
{
    let diagnostics = match &action.diagnostics {
        Some(list) => {
            let source = ctx.source(uri);
            render_all(&source, list)
        },
        None => Vec::new(),
    };
    assert(action.diagnostics is None ==> diagnostics.deep_view() =~= Seq::<ShownView>::empty());
    let edit = match &action.edit {
        Some(edit) => match EditPlan::of_edit(edit) {
            Ok(plan) => Some(
                WorkspaceEditDescription {
                    changes: changes_from_plan(&plan, ctx),
                    resource_operations: resource_operations_from_plan(&plan),
                },
            ),
            Err(_) => None,
        },
        None => None,
    };
    let command = match &action.command {
        Some(command) => Some(describe_command(command)),
        None => None,
    };
    CodeAction {
        title: action.title.clone(),
        kind: match &action.kind {
            Some(kind) => Some(kind.clone()),
            None => None,
        },
        diagnostics,
        edit,
        command,
        is_preferred: match action.is_preferred {
            Some(preferred) => preferred,
            None => false,
        },
        index: 0,
    }
}

/// A bare command, as it is shown among code actions.
pub open spec fn bare_command(command: Command) -> CodeActionView {
    CodeActionView {
        title: command.title@,
        kind: None,
        diagnostics: Seq::empty(),
        edit: None,
        command: Some(shown_command(command)),
        is_preferred: false,
        index: 0,
    }
}

/// An entry as it is shown at a place in the list.
pub open spec fn shown_entry(
    entry: CodeActionOrCommand,
    ctx: CtxView,
    uri: Seq<char>,
    index: usize,
) -> CodeActionView {
    let shown = match entry {
        CodeActionOrCommand::Command(command) => bare_command(command),
        CodeActionOrCommand::CodeAction(action) => converted(action, ctx, uri),
    };
    CodeActionView { index, ..shown }
}

/// A server's list as it is shown: every entry keeps its place, which is the
/// number it is called by.
pub open spec fn shown_list(entries: Seq<CodeActionOrCommand>, ctx: CtxView, uri: Seq<char>) -> Seq<
    CodeActionView,
> {
    Seq::new(entries.len(), |i: int| shown_entry(entries[i], ctx, uri, i as usize))
}

/// A server's list of code actions on the document `uri`, as it is shown.
pub fn show_entries(entries: &Vec<CodeActionOrCommand>, ctx: &EncodingCtx, uri: &str) -> (r: Vec<
    CodeAction,
>)
    ensures
        r.deep_view() == shown_list(entries@, ctx.deep_view(), uri@),
{
    let ghost all = shown_list(entries@, ctx.deep_view(), uri@);
    let mut shown: Vec<CodeAction> = Vec::new();
    let mut i: usize = 0;
    assert(shown.deep_view() =~= all.take(0));
    while i < entries.len()
        invariant
            i <= entries.len(),
            all == shown_list(entries@, ctx.deep_view(), uri@),
            shown.deep_view() == all.take(i as int),
        decreases entries.len() - i,
    {
        let ghost before = shown.deep_view();
        let mut action = match &entries[i] {
            CodeActionOrCommand::CodeAction(action) => convert_code_action(action, ctx, uri),
            CodeActionOrCommand::Command(command) => {
                let diagnostics: Vec<Diagnostic> = Vec::new();
                assert(diagnostics.deep_view() =~= Seq::<ShownView>::empty());
                CodeAction {
                    title: command.title.clone(),
                    kind: None,
                    diagnostics,
                    edit: None,
                    command: Some(describe_command(command)),
                    is_preferred: false,
                    index: 0,
                }
            },
        };
        action.index = i;
        assert(action.deep_view() == all[i as int]);
        shown.push(action);
        assert(shown.deep_view() =~= before.push(all[i as int]));
        assert(all.take(i + 1) =~= before.push(all[i as int]));
        i = i + 1;
    }
    assert(all.take(i as int) =~= all);
    shown
}

} // verus!
