//! Renaming, formatting, and listing and applying code actions.
//!
//! Each handler is a function of everything that has happened so far. It says
//! what comes next, which the caller does and reports back.

use crate::actions;
use crate::actions::{selector_from_params, validate_code_action_params, validate_rename_params};
use crate::diagnostics;
use crate::diagnostics::{Diagnostic, DiagnosticView};
use crate::edits;
use crate::edits::{
    answer_for, changed_the_tree, debug_words, ApplyConfig, ApplySummary, InboundEdits,
    InboundView, SummaryView, ToolKind,
};
use crate::error::{Error, ErrorView};
use crate::plan;
use crate::plan::{
    ChangeView, EditPlan, OperationView, TextDocumentEdit, TextDocumentEditView, TextEditView,
    WorkspaceEdit,
};
use crate::shown_edits;
use crate::shown_edits::{
    changes_from_plan, describe_command, resource_operations_from_plan, show_edits,
    show_entries, CodeAction, CodeActionOrCommand, CodeActionView, Command, CommandDescription,
    CommandView, CtxView, DocumentChanges, DocumentChangesView, EncodingCtx, LspCodeAction,
    ResourceOperation, ResourceOperationView, ShownEditView, TextEdit,
};
use vstd::prelude::*;
use vstd::string::*;

verus! {

/// A place in a document as a host counts: lines and columns from one.
#[derive(Clone, Copy, Debug, PartialEq, Eq, Structural)]
pub struct Place {
    /// The line.
    pub line: u32,
    /// The column.
    pub character: u32,
}

/// A stretch of a document as a host counts.
#[derive(Clone, Copy, Debug, PartialEq, Eq, Structural)]
pub struct Span {
    /// Its first place.
    pub start: Place,
    /// Its last.
    pub end: Place,
}

/// What a document's server must offer before it is asked.
#[derive(Clone, Debug, PartialEq, Eq)]
pub struct Gate {
    /// The tool that asks.
    pub tool: ToolKind,
    /// The capability, as a server announces it.
    pub capability: String,
}

/// What a [`Gate`] stands for.
#[verifier::ext_equal]
pub struct GateView {
    /// The tool that asks.
    pub tool: ToolKind,
    /// The capability, as a server announces it.
    pub capability: Seq<char>,
}

impl DeepView for Gate {
    type V = GateView;

    open spec fn deep_view(&self) -> GateView {
        GateView { tool: self.tool, capability: self.capability@ }
    }
}

/// What a server announced of one capability.
#[derive(Clone, Copy, Debug, PartialEq, Eq, Structural)]
pub enum Announced {
    /// Nothing.
    Nothing,
    /// That it offers it, or that it does not.
    Flag(bool),
    /// How it offers it.
    Options,
}

/// Whether an announcement offers something.
pub open spec fn offered(announced: Announced) -> bool {
    match announced {
        Announced::Nothing => false,
        Announced::Flag(flag) => flag,
        Announced::Options => true,
    }
}

/// A server that announced nothing, or that it does not, offers nothing; any
/// other announcement is an offer.
pub proof fn law_what_is_an_offer(announced: Announced)
    ensures
        !offered(announced) <==> announced == Announced::Nothing || announced == Announced::Flag(
            false,
        ),
{
}

/// Whether a server offers what it announced.
pub fn offers(announced: Announced) -> (r: bool)
    ensures
        r == (announced == Announced::Flag(true) || announced == Announced::Options),
        r == offered(announced),
{
    match announced {
        Announced::Nothing => false,
        Announced::Flag(flag) => flag,
        Announced::Options => true,
    }
}

/// A document that is open in a server which offers what is asked for, and a
/// place in it as that server counts.
#[derive(Clone, Debug, PartialEq, Eq)]
pub struct PreparedPlace {
    /// The document.
    pub uri: String,
    /// The place.
    pub position: diagnostics::Position,
}

/// A document that is open in a server which offers what is asked for, and a
/// stretch of it as that server counts.
#[derive(Clone, Debug, PartialEq, Eq)]
pub struct PreparedSpan {
    /// The document.
    pub uri: String,
    /// The stretch.
    pub range: diagnostics::Range,
}

/// A server is asked for a rename: the body of `textDocument/rename`.
#[derive(Clone, Debug, PartialEq, Eq)]
pub struct RenameRequest {
    /// The document.
    pub uri: String,
    /// The symbol's place, as the server counts.
    pub position: diagnostics::Position,
    /// The new name.
    pub new_name: String,
}

/// What a [`RenameRequest`] stands for.
#[verifier::ext_equal]
pub struct RenameRequestView {
    /// The document.
    pub uri: Seq<char>,
    /// The symbol's place, as the server counts.
    pub position: diagnostics::Position,
    /// The new name.
    pub new_name: Seq<char>,
}

impl DeepView for RenameRequest {
    type V = RenameRequestView;

    open spec fn deep_view(&self) -> RenameRequestView {
        RenameRequestView {
            uri: self.uri@,
            position: self.position,
            new_name: self.new_name@,
        }
    }
}

/// The symbol that is to be renamed, by its position, and its new name.
#[derive(Clone, Debug, PartialEq, Eq)]
pub struct RenameParams {
    /// The line.
    pub line: u32,
    /// The column.
    pub character: u32,
    /// The new name.
    pub new_name: String,
}

/// What [`RenameParams`] stand for.
pub struct RenameParamsView {
    /// The line.
    pub line: u32,
    /// The column.
    pub character: u32,
    /// The new name.
    pub new_name: Seq<char>,
}

impl DeepView for RenameParams {
    type V = RenameParamsView;

    open spec fn deep_view(&self) -> RenameParamsView {
        RenameParamsView {
            line: self.line,
            character: self.character,
            new_name: self.new_name@,
        }
    }
}

/// What renaming a symbol came to.
#[derive(Clone, Debug, PartialEq, Eq)]
pub struct RenameResult {
    /// The edits, document by document.
    pub changes: Vec<DocumentChanges>,
    /// The file-system operations.
    pub resource_operations: Vec<ResourceOperation>,
    /// Whether the working tree was changed.
    pub applied: bool,
    /// The files whose content was rewritten.
    pub files_written: Vec<String>,
}

/// What a [`RenameResult`] stands for.
#[verifier::ext_equal]
pub struct RenameView {
    /// The edits, document by document.
    pub changes: Seq<DocumentChangesView>,
    /// The file-system operations.
    pub resource_operations: Seq<ResourceOperationView>,
    /// Whether the working tree was changed.
    pub applied: bool,
    /// The files whose content was rewritten.
    pub files_written: Seq<Seq<char>>,
}

impl DeepView for RenameResult {
    type V = RenameView;

    open spec fn deep_view(&self) -> RenameView {
        RenameView {
            changes: self.changes.deep_view(),
            resource_operations: self.resource_operations.deep_view(),
            applied: self.applied,
            files_written: self.files_written.deep_view(),
        }
    }
}

/// What comes next of a rename.
#[derive(Debug)]
pub enum RenameNext {
    /// It fails.
    Fail(Error),
    /// Open the document in its server, see that the server offers this, and
    /// count this place as the server does.
    Prepare(Gate, Place),
    /// Ask the server for the edit.
    Request(RenameRequest),
    /// Write this plan.
    Apply(EditPlan),
    /// It is done.
    Done(RenameResult),
}

/// What a [`RenameNext`] stands for.
#[verifier::ext_equal]
pub enum RenameNextView {
    /// It fails.
    Fail(ErrorView),
    /// Open the document in its server, see that the server offers this, and
    /// count this place as the server does.
    Prepare(GateView, Place),
    /// Ask the server for the edit.
    Request(RenameRequestView),
    /// Write this plan.
    Apply(Seq<OperationView>),
    /// It is done.
    Done(RenameView),
}

impl DeepView for RenameNext {
    type V = RenameNextView;

    open spec fn deep_view(&self) -> RenameNextView {
        match self {
            RenameNext::Fail(e) => RenameNextView::Fail(e.deep_view()),
            RenameNext::Prepare(gate, at) => RenameNextView::Prepare(gate.deep_view(), *at),
            RenameNext::Request(request) => RenameNextView::Request(request.deep_view()),
            RenameNext::Apply(plan) => RenameNextView::Apply(plan.deep_view()),
            RenameNext::Done(result) => RenameNextView::Done(result.deep_view()),
        }
    }
}

/// A rename that found nothing to change.
pub open spec fn nothing_renamed() -> RenameView {
    RenameView {
        changes: Seq::empty(),
        resource_operations: Seq::empty(),
        applied: false,
        files_written: Seq::empty(),
    }
}

/// A rename whose plan is `operations`, of which `written` was written.
pub open spec fn renamed(
    ctx: CtxView,
    operations: Seq<OperationView>,
    written: SummaryView,
) -> RenameView {
    RenameView {
        changes: shown_edits::shown_changes(ctx, operations),
        resource_operations: shown_edits::shown_operations(operations),
        applied: edits::changed(written),
        files_written: written.files_changed,
    }
}

/// A summary of nothing at all.
pub open spec fn nothing_applied() -> SummaryView {
    SummaryView { files_changed: Seq::empty(), resource_operations: Seq::empty() }
}

/// What a server must offer to be asked for a rename.
pub open spec fn rename_gate() -> GateView {
    GateView { tool: ToolKind::Rename, capability: "renameProvider"@ }
}

/// What comes next of a rename. The name and the permission are looked at
/// before the document is opened, what the server offers is looked at before it
/// is asked, and its edit is planned before it is shown.
pub open spec fn rename_next(
    config: ApplyConfig,
    params: RenameParamsView,
    apply: bool,
    prepared: Option<Result<PreparedPlace, Error>>,
    response: Option<Result<Option<WorkspaceEdit>, Error>>,
    ctx: CtxView,
    applied: Option<Result<ApplySummary, Error>>,
) -> RenameNextView {
    if actions::rename_params_error(params.new_name) is Some {
        RenameNextView::Fail(actions::rename_params_error(params.new_name)->Some_0)
    } else if apply && !config.rename {
        RenameNextView::Fail(edits::apply_disabled("rename_symbol"@, "apply.rename"@))
    } else {
        match prepared {
            None => RenameNextView::Prepare(
                rename_gate(),
                Place { line: params.line, character: params.character },
            ),
            Some(Err(e)) => RenameNextView::Fail(e.deep_view()),
            Some(Ok(at)) => match response {
                None => RenameNextView::Request(
                    RenameRequestView {
                        uri: at.uri@,
                        position: at.position,
                        new_name: params.new_name,
                    },
                ),
                Some(Err(e)) => RenameNextView::Fail(e.deep_view()),
                Some(Ok(None)) => RenameNextView::Done(nothing_renamed()),
                Some(Ok(Some(edit))) => match plan::plan_of(edit) {
                    Err(e) => RenameNextView::Fail(e),
                    Ok(operations) => if !apply {
                        RenameNextView::Done(renamed(ctx, operations, nothing_applied()))
                    } else {
                        match applied {
                            None => RenameNextView::Apply(operations),
                            Some(Err(e)) => RenameNextView::Fail(e.deep_view()),
                            Some(Ok(summary)) => RenameNextView::Done(
                                renamed(ctx, operations, summary.deep_view()),
                            ),
                        }
                    },
                },
            },
        }
    }
}

/// What comes next of renaming a symbol.
///
/// `prepared` is the document and the place once they are, `response` is the
/// server's answer once there is one, and `applied` is what writing the plan came
/// to.
pub fn handle_rename(
    config: &ApplyConfig,
    params: &RenameParams,
    apply: bool,
    prepared: Option<Result<PreparedPlace, Error>>,
    response: Option<Result<Option<WorkspaceEdit>, Error>>,
    ctx: &EncodingCtx,
    applied: Option<Result<ApplySummary, Error>>,
) -> (r: RenameNext)
    ensures
        r.deep_view() == rename_next(
            *config,
            params.deep_view(),
            apply,
            prepared,
            response,
            ctx.deep_view(),
            applied,
        ),
{
    if let Err(e) = validate_rename_params(params.new_name.as_str()) {
        return RenameNext::Fail(e);
    }
    if apply {
        if let Err(e) = config.applier_for(ToolKind::Rename, "rename_symbol", "apply.rename") {
            return RenameNext::Fail(e);
        }
    }
    let at = match prepared {
        None => {
            return RenameNext::Prepare(
                Gate { tool: ToolKind::Rename, capability: "renameProvider".to_owned() },
                Place { line: params.line, character: params.character },
            );
        },
        Some(Err(e)) => {
            return RenameNext::Fail(e);
        },
        Some(Ok(at)) => at,
    };
    let edit = match response {
        None => {
            return RenameNext::Request(
                RenameRequest {
                    uri: at.uri,
                    position: at.position,
                    new_name: params.new_name.clone(),
                },
            );
        },
        Some(Err(e)) => {
            return RenameNext::Fail(e);
        },
        Some(Ok(None)) => {
            let result = RenameResult {
                changes: Vec::new(),
                resource_operations: Vec::new(),
                applied: false,
                files_written: Vec::new(),
            };
            assert(result.deep_view() =~= nothing_renamed());
            return RenameNext::Done(result);
        },
        Some(Ok(Some(edit))) => edit,
    };
    let plan = match EditPlan::from_workspace_edit(edit) {
        Ok(plan) => plan,
        Err(e) => {
            return RenameNext::Fail(e);
        },
    };
    let (written, files_written) = if apply {
        match applied {
            None => {
                return RenameNext::Apply(plan);
            },
            Some(Err(e)) => {
                return RenameNext::Fail(e);
            },
            Some(Ok(summary)) => (changed_the_tree(&summary), summary.files_changed),
        }
    } else {
        (false, Vec::new())
    };
    assert(!apply ==> files_written.deep_view() =~= Seq::<Seq<char>>::empty());
    RenameNext::Done(
        RenameResult {
            changes: changes_from_plan(&plan, ctx),
            resource_operations: resource_operations_from_plan(&plan),
            applied: written,
            files_written,
        },
    )
}

/// How a document is to be formatted.
#[derive(Clone, Copy, Debug, PartialEq, Eq, Structural)]
pub struct FormatOptions {
    /// How many columns a tab takes.
    pub tab_size: u32,
    /// Whether to indent with spaces.
    pub insert_spaces: bool,
}

/// A server is asked to format: the body of `textDocument/formatting`.
#[derive(Clone, Debug, PartialEq, Eq)]
pub struct FormatRequest {
    /// The document.
    pub uri: String,
    /// How it is to be formatted.
    pub options: FormatOptions,
}

/// What a [`FormatRequest`] stands for.
#[verifier::ext_equal]
pub struct FormatRequestView {
    /// The document.
    pub uri: Seq<char>,
    /// How it is to be formatted.
    pub options: FormatOptions,
}

impl DeepView for FormatRequest {
    type V = FormatRequestView;

    open spec fn deep_view(&self) -> FormatRequestView {
        FormatRequestView { uri: self.uri@, options: self.options }
    }
}

/// What formatting a document came to.
#[derive(Clone, Debug, PartialEq, Eq)]
pub struct FormatDocumentResult {
    /// The edits.
    pub edits: Vec<TextEdit>,
    /// Whether the working tree was changed.
    pub applied: bool,
}

/// What a [`FormatDocumentResult`] stands for.
#[verifier::ext_equal]
pub struct FormatView {
    /// The edits.
    pub edits: Seq<ShownEditView>,
    /// Whether the working tree was changed.
    pub applied: bool,
}

impl DeepView for FormatDocumentResult {
    type V = FormatView;

    open spec fn deep_view(&self) -> FormatView {
        FormatView { edits: self.edits.deep_view(), applied: self.applied }
    }
}

/// What comes next of formatting a document.
#[derive(Debug)]
pub enum FormatNext {
    /// It fails.
    Fail(Error),
    /// Open the document in its server, and see that the server offers this.
    Prepare(Gate),
    /// Ask the server for the edits.
    Request(FormatRequest),
    /// Write this plan.
    Apply(EditPlan),
    /// It is done.
    Done(FormatDocumentResult),
}

/// What a [`FormatNext`] stands for.
#[verifier::ext_equal]
pub enum FormatNextView {
    /// It fails.
    Fail(ErrorView),
    /// Open the document in its server, and see that the server offers this.
    Prepare(GateView),
    /// Ask the server for the edits.
    Request(FormatRequestView),
    /// Write this plan.
    Apply(Seq<OperationView>),
    /// It is done.
    Done(FormatView),
}

impl DeepView for FormatNext {
    type V = FormatNextView;

    open spec fn deep_view(&self) -> FormatNextView {
        match self {
            FormatNext::Fail(e) => FormatNextView::Fail(e.deep_view()),
            FormatNext::Prepare(gate) => FormatNextView::Prepare(gate.deep_view()),
            FormatNext::Request(request) => FormatNextView::Request(request.deep_view()),
            FormatNext::Apply(plan) => FormatNextView::Apply(plan.deep_view()),
            FormatNext::Done(result) => FormatNextView::Done(result.deep_view()),
        }
    }
}

/// The plan of an edit to one document.
pub open spec fn document_plan(uri: Seq<char>, list: Seq<TextEditView>) -> Result<
    Seq<OperationView>,
    ErrorView,
> {
    let edit = TextDocumentEditView { uri, version: None, edits: list };
    plan::planned_operations(
        plan::edits_as_changes(seq![edit]).map(|_i, c: ChangeView| plan::keyed(c)),
    )
}

/// What a server must offer to be asked to format.
pub open spec fn format_gate() -> GateView {
    GateView { tool: ToolKind::FormatDocument, capability: "documentFormattingProvider"@ }
}

/// What comes next of formatting a document. The permission is looked at before
/// the document is opened, and what the server offers before it is asked. A
/// document that needs no edit is not written.
pub open spec fn format_next(
    config: ApplyConfig,
    options: FormatOptions,
    apply: bool,
    prepared: Option<Result<String, Error>>,
    response: Option<Result<Option<Vec<plan::TextEdit>>, Error>>,
    ctx: CtxView,
    applied: Option<Result<ApplySummary, Error>>,
) -> FormatNextView {
    if apply && !config.format_document {
        FormatNextView::Fail(edits::apply_disabled("format_document"@, "apply.format_document"@))
    } else {
        match prepared {
            None => FormatNextView::Prepare(format_gate()),
            Some(Err(e)) => FormatNextView::Fail(e.deep_view()),
            Some(Ok(uri)) => match response {
                None => FormatNextView::Request(FormatRequestView { uri: uri@, options }),
                Some(Err(e)) => FormatNextView::Fail(e.deep_view()),
                Some(Ok(answer)) => formatted(uri@, apply, answer, ctx, applied),
            },
        }
    }
}

/// What comes next of formatting the document `uri` once the server has answered.
pub open spec fn formatted(
    uri: Seq<char>,
    apply: bool,
    answer: Option<Vec<plan::TextEdit>>,
    ctx: CtxView,
    applied: Option<Result<ApplySummary, Error>>,
) -> FormatNextView {
    let list = match answer {
        Some(list) => list.deep_view(),
        None => Seq::empty(),
    };
    let shown = shown_edits::shown_edits(shown_edits::source_of(ctx, uri), list);
    if !apply || list.len() == 0 {
        FormatNextView::Done(FormatView { edits: shown, applied: false })
    } else {
        match document_plan(uri, list) {
            Err(e) => FormatNextView::Fail(e),
            Ok(operations) => match applied {
                None => FormatNextView::Apply(operations),
                Some(Err(e)) => FormatNextView::Fail(e.deep_view()),
                Some(Ok(summary)) => FormatNextView::Done(
                    FormatView { edits: shown, applied: edits::changed(summary.deep_view()) },
                ),
            },
        }
    }
}

fn plan_document(uri: &str, list: Vec<plan::TextEdit>) -> (r: Result<EditPlan, Error>)
    ensures
        crate::error::outcome(r) == document_plan(uri@, list.deep_view()),
{
    let ghost given = list.deep_view();
    let edit = TextDocumentEdit { uri: uri.to_owned(), version: None, edits: list };
    let ghost view = edit.deep_view();
    let mut all: Vec<TextDocumentEdit> = Vec::new();
    all.push(edit);
    assert(all.deep_view() =~= seq![view]);
    assert(view == (TextDocumentEditView { uri: uri@, version: None, edits: given }));
    EditPlan::from_workspace_edit(
        WorkspaceEdit {
            changes: None,
            document_changes: Some(plan::DocumentChanges::Edits(all)),
        },
    )
}

/// What comes next of formatting a document.
///
/// `prepared` is the document once it is, `response` is the server's answer once
/// there is one, and `applied` is what writing the plan came to.
pub fn handle_format_document(
    config: &ApplyConfig,
    options: FormatOptions,
    apply: bool,
    prepared: Option<Result<String, Error>>,
    response: Option<Result<Option<Vec<plan::TextEdit>>, Error>>,
    ctx: &EncodingCtx,
    applied: Option<Result<ApplySummary, Error>>,
) -> (r: FormatNext)
    ensures
        r.deep_view() == format_next(
            *config,
            options,
            apply,
            prepared,
            response,
            ctx.deep_view(),
            applied,
        ),
{
    if apply {
        if let Err(e) = config.applier_for(
            ToolKind::FormatDocument,
            "format_document",
            "apply.format_document",
        ) {
            return FormatNext::Fail(e);
        }
    }
    let uri = match prepared {
        None => {
            return FormatNext::Prepare(
                Gate {
                    tool: ToolKind::FormatDocument,
                    capability: "documentFormattingProvider".to_owned(),
                },
            );
        },
        Some(Err(e)) => {
            return FormatNext::Fail(e);
        },
        Some(Ok(uri)) => uri,
    };
    let list = match response {
        None => {
            return FormatNext::Request(FormatRequest { uri, options });
        },
        Some(Err(e)) => {
            return FormatNext::Fail(e);
        },
        Some(Ok(None)) => Vec::new(),
        Some(Ok(Some(list))) => list,
    };
    let ghost given = list.deep_view();
    assert(response == Some(Ok::<Option<Vec<plan::TextEdit>>, Error>(None)) ==> given
        =~= Seq::<TextEditView>::empty());
    let source = ctx.source(uri.as_str());
    let shown = show_edits(&source, &list);
    if !apply || list.len() == 0 {
        return FormatNext::Done(FormatDocumentResult { edits: shown, applied: false });
    }
    match plan_document(uri.as_str(), list) {
        Err(e) => FormatNext::Fail(e),
        Ok(plan) => match applied {
            None => FormatNext::Apply(plan),
            Some(Err(e)) => FormatNext::Fail(e),
            Some(Ok(summary)) => FormatNext::Done(
                FormatDocumentResult { edits: shown, applied: changed_the_tree(&summary) },
            ),
        },
    }
}

/// The range and the kind that a request for code actions names.
#[derive(Clone, Debug, PartialEq, Eq)]
pub struct CodeActionParams {
    /// The first line.
    pub start_line: u32,
    /// The first column.
    pub start_character: u32,
    /// The last line.
    pub end_line: u32,
    /// The last column.
    pub end_character: u32,
    /// The kind to narrow the list to.
    pub kind_filter: Option<String>,
}

/// What [`CodeActionParams`] stand for.
pub struct ParamsView {
    /// The first line.
    pub start_line: u32,
    /// The first column.
    pub start_character: u32,
    /// The last line.
    pub end_line: u32,
    /// The last column.
    pub end_character: u32,
    /// The kind to narrow the list to.
    pub kind_filter: Option<Seq<char>>,
}

impl DeepView for CodeActionParams {
    type V = ParamsView;

    open spec fn deep_view(&self) -> ParamsView {
        ParamsView {
            start_line: self.start_line,
            start_character: self.start_character,
            end_line: self.end_line,
            end_character: self.end_character,
            kind_filter: self.kind_filter.deep_view(),
        }
    }
}

/// What makes a server list code actions.
#[derive(Clone, Copy, Debug, PartialEq, Eq, Structural)]
pub enum Trigger {
    /// Someone asked for them.
    Invoked,
    /// Something changed.
    Automatic,
}

/// A server is asked for code actions: the body of `textDocument/codeAction`.
#[derive(Clone, Debug, PartialEq, Eq)]
pub struct CodeActionRequest {
    /// The document.
    pub uri: String,
    /// The stretch of it, as the server counts.
    pub range: diagnostics::Range,
    /// The diagnostics to find actions for. A server finds its own by the range.
    pub diagnostics: Vec<Diagnostic>,
    /// The kinds to list, when not all.
    pub only: Option<Vec<String>>,
    /// What makes it list them.
    pub trigger: Option<Trigger>,
}

/// What a [`CodeActionRequest`] stands for.
#[verifier::ext_equal]
pub struct CodeActionRequestView {
    /// The document.
    pub uri: Seq<char>,
    /// The stretch of it, as the server counts.
    pub range: diagnostics::Range,
    /// The diagnostics to find actions for.
    pub diagnostics: Seq<DiagnosticView>,
    /// The kinds to list, when not all.
    pub only: Option<Seq<Seq<char>>>,
    /// What makes it list them.
    pub trigger: Option<Trigger>,
}

impl DeepView for CodeActionRequest {
    type V = CodeActionRequestView;

    open spec fn deep_view(&self) -> CodeActionRequestView {
        CodeActionRequestView {
            uri: self.uri@,
            range: self.range,
            diagnostics: self.diagnostics.deep_view(),
            only: self.only.deep_view(),
            trigger: self.trigger,
        }
    }
}

/// What a server must offer to be asked for code actions.
pub open spec fn actions_gate() -> GateView {
    GateView { tool: ToolKind::CodeActions, capability: "codeActionProvider"@ }
}

/// The range that a request names.
pub open spec fn span_of(params: ParamsView) -> Span {
    Span {
        start: Place { line: params.start_line, character: params.start_character },
        end: Place { line: params.end_line, character: params.end_character },
    }
}

/// What a server is asked for: the actions of a prepared range, of the one kind
/// that `kind_filter` names or of all kinds. No diagnostics go along: a server
/// that maps fixes by what it attached to its own diagnostics would find none by
/// stale copies of them.
pub open spec fn actions_request(
    at: PreparedSpan,
    kind_filter: Option<Seq<char>>,
) -> CodeActionRequestView {
    CodeActionRequestView {
        uri: at.uri@,
        range: at.range,
        diagnostics: Seq::empty(),
        only: match kind_filter {
            Some(kind) => Some(seq![kind]),
            None => None,
        },
        trigger: Some(Trigger::Invoked),
    }
}

fn gate_actions() -> (r: Gate)
    ensures
        r.deep_view() == actions_gate(),
{
    Gate { tool: ToolKind::CodeActions, capability: "codeActionProvider".to_owned() }
}

impl CodeActionParams {
    fn span(&self) -> (r: Span)
        ensures
            r == span_of(self.deep_view()),
    {
        Span {
            start: Place { line: self.start_line, character: self.start_character },
            end: Place { line: self.end_line, character: self.end_character },
        }
    }

    fn request(&self, at: PreparedSpan) -> (r: CodeActionRequest)
        ensures
            r.deep_view() == actions_request(at, self.kind_filter.deep_view()),
    {
        let only = match &self.kind_filter {
            Some(kind) => {
                let mut kinds: Vec<String> = Vec::new();
                kinds.push(kind.clone());
                assert(kinds.deep_view() =~= seq![kind@]);
                Some(kinds)
            },
            None => None,
        };
        let diagnostics: Vec<Diagnostic> = Vec::new();
        assert(diagnostics.deep_view() =~= Seq::<DiagnosticView>::empty());
        CodeActionRequest {
            uri: at.uri,
            range: at.range,
            diagnostics,
            only,
            trigger: Some(Trigger::Invoked),
        }
    }
}

/// What is wrong with a request's range and kind, if anything.
pub open spec fn params_error(params: ParamsView) -> Option<ErrorView> {
    actions::action_params_error(
        params.start_line,
        params.start_character,
        params.end_line,
        params.end_character,
        params.kind_filter,
    )
}

fn check_params(params: &CodeActionParams) -> (r: Result<(), Error>)
    ensures
        crate::error::failure(r) == params_error(params.deep_view()),
{
    let kind = match &params.kind_filter {
        Some(kind) => Some(kind.as_str()),
        None => None,
    };
    validate_code_action_params(
        params.start_line,
        params.start_character,
        params.end_line,
        params.end_character,
        kind,
    )
}

/// The code actions of a range.
#[derive(Clone, Debug, PartialEq, Eq)]
pub struct CodeActionsResult {
    /// The actions, each with its number.
    pub actions: Vec<CodeAction>,
}

/// What comes next of listing code actions.
#[derive(Debug)]
pub enum CodeActionsNext {
    /// It fails.
    Fail(Error),
    /// Open the document in its server, see that the server offers this, and
    /// count this range as the server does.
    Prepare(Gate, Span),
    /// Ask the server for the list.
    Request(CodeActionRequest),
    /// It is done.
    Done(CodeActionsResult),
}

/// What a [`CodeActionsNext`] stands for.
#[verifier::ext_equal]
pub enum CodeActionsNextView {
    /// It fails.
    Fail(ErrorView),
    /// Open the document in its server, see that the server offers this, and
    /// count this range as the server does.
    Prepare(GateView, Span),
    /// Ask the server for the list.
    Request(CodeActionRequestView),
    /// It is done.
    Done(Seq<CodeActionView>),
}

impl DeepView for CodeActionsNext {
    type V = CodeActionsNextView;

    open spec fn deep_view(&self) -> CodeActionsNextView {
        match self {
            CodeActionsNext::Fail(e) => CodeActionsNextView::Fail(e.deep_view()),
            CodeActionsNext::Prepare(gate, at) => CodeActionsNextView::Prepare(
                gate.deep_view(),
                *at,
            ),
            CodeActionsNext::Request(request) => CodeActionsNextView::Request(
                request.deep_view(),
            ),
            CodeActionsNext::Done(result) => CodeActionsNextView::Done(result.actions.deep_view()),
        }
    }
}

/// A server's answer, where no answer is an empty list.
pub open spec fn entries_of(answer: Option<Vec<CodeActionOrCommand>>) -> Seq<CodeActionOrCommand> {
    match answer {
        Some(list) => list@,
        None => Seq::empty(),
    }
}

/// What comes next of listing the code actions of a document. What the request
/// says is looked at before the document is opened, and what the server offers
/// before it is asked.
pub open spec fn code_actions_next(
    params: ParamsView,
    prepared: Option<Result<PreparedSpan, Error>>,
    response: Option<Result<Option<Vec<CodeActionOrCommand>>, Error>>,
    ctx: CtxView,
) -> CodeActionsNextView {
    if params_error(params) is Some {
        CodeActionsNextView::Fail(params_error(params)->Some_0)
    } else {
        match prepared {
            None => CodeActionsNextView::Prepare(actions_gate(), span_of(params)),
            Some(Err(e)) => CodeActionsNextView::Fail(e.deep_view()),
            Some(Ok(at)) => match response {
                None => CodeActionsNextView::Request(actions_request(at, params.kind_filter)),
                Some(Err(e)) => CodeActionsNextView::Fail(e.deep_view()),
                Some(Ok(answer)) => CodeActionsNextView::Done(
                    shown_edits::shown_list(entries_of(answer), ctx, at.uri@),
                ),
            },
        }
    }
}

/// What comes next of listing the code actions of a document.
///
/// `prepared` is the document and the range once they are, and `response` is the
/// server's answer once there is one.
pub fn handle_code_actions(
    params: &CodeActionParams,
    prepared: Option<Result<PreparedSpan, Error>>,
    response: Option<Result<Option<Vec<CodeActionOrCommand>>, Error>>,
    ctx: &EncodingCtx,
) -> (r: CodeActionsNext)
    ensures
        r.deep_view() == code_actions_next(
            params.deep_view(),
            prepared,
            response,
            ctx.deep_view(),
        ),
{
    if let Err(e) = check_params(params) {
        return CodeActionsNext::Fail(e);
    }
    let at = match prepared {
        None => {
            return CodeActionsNext::Prepare(gate_actions(), params.span());
        },
        Some(Err(e)) => {
            return CodeActionsNext::Fail(e);
        },
        Some(Ok(at)) => at,
    };
    let entries = match response {
        None => {
            return CodeActionsNext::Request(params.request(at));
        },
        Some(Err(e)) => {
            return CodeActionsNext::Fail(e);
        },
        Some(Ok(None)) => Vec::new(),
        Some(Ok(Some(entries))) => entries,
    };
    CodeActionsNext::Done(CodeActionsResult { actions: show_entries(&entries, ctx, at.uri.as_str()) })
}

/// What applying a code action came to.
#[derive(Clone, Debug, PartialEq, Eq)]
pub struct ApplyCodeActionResult {
    /// The action's title.
    pub title: String,
    /// Whether the working tree was changed.
    pub applied: bool,
    /// The files whose content was rewritten.
    pub files_written: Vec<String>,
    /// The file-system operations that were performed.
    pub resource_operations: Vec<ResourceOperation>,
    /// The command that was run.
    pub executed_command: Option<String>,
}

/// What an [`ApplyCodeActionResult`] stands for.
#[verifier::ext_equal]
pub struct AppliedView {
    /// The action's title.
    pub title: Seq<char>,
    /// What was written.
    pub written: InboundView,
    /// The command that was run.
    pub executed_command: Option<Seq<char>>,
}

impl DeepView for ApplyCodeActionResult {
    type V = AppliedView;

    open spec fn deep_view(&self) -> AppliedView {
        AppliedView {
            title: self.title@,
            written: InboundView {
                changed_the_tree: self.applied,
                files_written: self.files_written.deep_view(),
                resource_operations: self.resource_operations.deep_view(),
            },
            executed_command: self.executed_command.deep_view(),
        }
    }
}

/// What has happened of applying a code action.
#[derive(Debug)]
pub struct ApplyProgress {
    /// The document and the range, once they are prepared.
    pub prepared: Option<Result<PreparedSpan, Error>>,
    /// The server's list, once it was asked for.
    pub response: Option<Result<Option<Vec<CodeActionOrCommand>>, Error>>,
    /// The chosen action in full, once the server was asked to resolve it.
    pub resolved: Option<Result<LspCodeAction, Error>>,
    /// What writing the action's own edit came to.
    pub applied: Option<Result<ApplySummary, Error>>,
    /// What running the action's command came to.
    pub executed: Option<Result<(), Error>>,
    /// What the edits that the command sent back wrote, in their order.
    pub inbound: Vec<ApplySummary>,
}

/// What comes next of applying a code action.
#[derive(Debug)]
pub enum ApplyNext {
    /// It fails.
    Fail(Error),
    /// Open the document in its server, see that the server offers this, and
    /// count this range as the server does.
    Prepare(Gate, Span),
    /// Ask the server for the list.
    Request(CodeActionRequest),
    /// Ask the server for the entry at this place in full.
    Resolve(usize),
    /// Write this plan.
    Apply(EditPlan),
    /// Run this command, and write the edits that it sends back.
    Execute(CommandDescription),
    /// It is done.
    Done(ApplyCodeActionResult),
}

/// What an [`ApplyNext`] stands for.
#[verifier::ext_equal]
pub enum ApplyNextView {
    /// It fails.
    Fail(ErrorView),
    /// Open the document in its server, see that the server offers this, and
    /// count this range as the server does.
    Prepare(GateView, Span),
    /// Ask the server for the list.
    Request(CodeActionRequestView),
    /// Ask the server for the entry at this place in full.
    Resolve(usize),
    /// Write this plan.
    Apply(Seq<OperationView>),
    /// Run this command, and write the edits that it sends back.
    Execute(CommandView),
    /// It is done.
    Done(AppliedView),
}

impl DeepView for ApplyNext {
    type V = ApplyNextView;

    open spec fn deep_view(&self) -> ApplyNextView {
        match self {
            ApplyNext::Fail(e) => ApplyNextView::Fail(e.deep_view()),
            ApplyNext::Prepare(gate, at) => ApplyNextView::Prepare(gate.deep_view(), *at),
            ApplyNext::Request(request) => ApplyNextView::Request(request.deep_view()),
            ApplyNext::Resolve(index) => ApplyNextView::Resolve(*index),
            ApplyNext::Apply(plan) => ApplyNextView::Apply(plan.deep_view()),
            ApplyNext::Execute(command) => ApplyNextView::Execute(command.deep_view()),
            ApplyNext::Done(result) => ApplyNextView::Done(result.deep_view()),
        }
    }
}

/// The title of an entry.
pub open spec fn entry_title(entry: CodeActionOrCommand) -> Seq<char> {
    match entry {
        CodeActionOrCommand::Command(command) => command.title@,
        CodeActionOrCommand::CodeAction(action) => action.title@,
    }
}

/// The titles of a server's list.
pub open spec fn entry_titles(entries: Seq<CodeActionOrCommand>) -> Seq<Seq<char>> {
    entries.map_values(|e: CodeActionOrCommand| entry_title(e))
}

/// The message for an action that does nothing. The title is given in quotes.
pub open spec fn does_nothing(title: Seq<char>) -> Seq<char> {
    "code action "@ + title + " resolved to neither an edit nor a command"@
}

/// The error for an action that does nothing. The title is given in quotes.
pub fn does_nothing_error(title: &str) -> (r: Error)
    ensures
        r.deep_view() == ErrorView::ApplyRefused(does_nothing(title@)),
{
    let mut m = "code action ".to_owned();
    m.append(title);
    m.append(" resolved to neither an edit nor a command");
    Error::ApplyRefused(m)
}

/// What comes next of an action once its own edit is out of the way, with what
/// that edit wrote.
pub open spec fn after_edit(
    title: Seq<char>,
    command: Option<Command>,
    written: InboundView,
    executed: Option<Result<(), Error>>,
    inbound: Seq<SummaryView>,
) -> ApplyNextView {
    match command {
        Some(command) => match executed {
            None => ApplyNextView::Execute(shown_edits::shown_command(command)),
            Some(Err(e)) => ApplyNextView::Fail(e.deep_view()),
            Some(Ok(())) => ApplyNextView::Done(
                AppliedView {
                    title,
                    written: edits::all_absorbed(written, inbound),
                    executed_command: Some(command.command@),
                },
            ),
        },
        None => if written.changed_the_tree {
            ApplyNextView::Done(AppliedView { title, written, executed_command: None })
        } else {
            ApplyNextView::Fail(ErrorView::ApplyRefused(does_nothing(edits::debug_text(title))))
        },
    }
}

/// What comes next of an action that is known in full: its edit is written
/// before its command is run.
pub open spec fn carried_out(
    title: Seq<char>,
    edit: Option<WorkspaceEdit>,
    command: Option<Command>,
    progress: ApplyProgress,
) -> ApplyNextView {
    match edit {
        None => after_edit(
            title,
            command,
            edits::nothing_written(),
            progress.executed,
            progress.inbound.deep_view(),
        ),
        Some(edit) => match plan::plan_of(edit) {
            Err(e) => ApplyNextView::Fail(e),
            Ok(operations) => match progress.applied {
                None => ApplyNextView::Apply(operations),
                Some(Err(e)) => ApplyNextView::Fail(e.deep_view()),
                Some(Ok(summary)) => after_edit(
                    title,
                    command,
                    edits::absorbed(edits::nothing_written(), summary.deep_view()),
                    progress.executed,
                    progress.inbound.deep_view(),
                ),
            },
        },
    }
}

/// What comes next of an entry that was chosen. An action without an edit is
/// resolved where the server offers to.
pub open spec fn entry_next(
    entry: CodeActionOrCommand,
    index: usize,
    progress: ApplyProgress,
) -> ApplyNextView {
    match entry {
        CodeActionOrCommand::Command(command) => carried_out(
            command.title@,
            None,
            Some(command),
            progress,
        ),
        CodeActionOrCommand::CodeAction(action) => if action.edit is None && action.data is Some {
            match progress.resolved {
                None => ApplyNextView::Resolve(index),
                Some(Err(e)) => ApplyNextView::Fail(e.deep_view()),
                Some(Ok(full)) => carried_out(full.title@, full.edit, full.command, progress),
            }
        } else {
            carried_out(action.title@, action.edit, action.command, progress)
        },
    }
}

/// What comes next of applying a code action. What the request says and whether
/// it may write are looked at before the document is opened, and what the server
/// offers before it is asked.
pub open spec fn apply_next(
    config: ApplyConfig,
    params: ParamsView,
    index: Option<usize>,
    title: Option<Seq<char>>,
    progress: ApplyProgress,
) -> ApplyNextView {
    if params_error(params) is Some {
        ApplyNextView::Fail(params_error(params)->Some_0)
    } else {
        match actions::selector(index, title) {
            Err(e) => ApplyNextView::Fail(e),
            Ok(selector) => if !config.code_actions {
                ApplyNextView::Fail(
                    edits::apply_disabled("apply_code_action"@, "apply.code_actions"@),
                )
            } else {
                match progress.prepared {
                    None => ApplyNextView::Prepare(actions_gate(), span_of(params)),
                    Some(Err(e)) => ApplyNextView::Fail(e.deep_view()),
                    Some(Ok(at)) => match progress.response {
                        None => ApplyNextView::Request(actions_request(at, params.kind_filter)),
                        Some(Err(e)) => ApplyNextView::Fail(e.deep_view()),
                        Some(Ok(answer)) => {
                            let entries = entries_of(answer);
                            match edits::selected(entry_titles(entries), selector) {
                                Err(e) => ApplyNextView::Fail(e),
                                Ok(chosen) => entry_next(entries[chosen as int], chosen, progress),
                            }
                        },
                    },
                }
            },
        }
    }
}

fn finish_edit(
    title: &String,
    command: &Option<Command>,
    written: InboundEdits,
    executed: Option<Result<(), Error>>,
    inbound: &Vec<ApplySummary>,
) -> (r: ApplyNext)
    ensures
        r.deep_view() == after_edit(
            title@,
            *command,
            written.deep_view(),
            executed,
            inbound.deep_view(),
        ),
{
    let mut written = written;
    match command {
        Some(command) => match executed {
            None => ApplyNext::Execute(describe_command(command)),
            Some(Err(e)) => ApplyNext::Fail(e),
            Some(Ok(())) => {
                written.absorb_all(inbound);
                ApplyNext::Done(
                    ApplyCodeActionResult {
                        title: title.clone(),
                        applied: written.changed_the_tree,
                        files_written: written.files_written,
                        resource_operations: written.resource_operations,
                        executed_command: Some(command.command.clone()),
                    },
                )
            },
        },
        None => if written.changed_the_tree {
            ApplyNext::Done(
                ApplyCodeActionResult {
                    title: title.clone(),
                    applied: true,
                    files_written: written.files_written,
                    resource_operations: written.resource_operations,
                    executed_command: None,
                },
            )
        } else {
            let quoted = debug_words(title.as_str());
            ApplyNext::Fail(does_nothing_error(quoted.as_str()))
        },
    }
}

fn carry_out(
    title: &String,
    edit: &Option<WorkspaceEdit>,
    command: &Option<Command>,
    applied: Option<Result<ApplySummary, Error>>,
    executed: Option<Result<(), Error>>,
    inbound: Vec<ApplySummary>,
    Ghost(progress): Ghost<ApplyProgress>,
) -> (r: ApplyNext)
    requires
        progress.applied == applied,
        progress.executed == executed,
        progress.inbound == inbound,
    ensures
        r.deep_view() == carried_out(title@, *edit, *command, progress),
{
    let mut written = InboundEdits::new();
    if let Some(edit) = edit {
        let plan = match EditPlan::of_edit(edit) {
            Ok(plan) => plan,
            Err(e) => {
                return ApplyNext::Fail(e);
            },
        };
        match applied {
            None => {
                return ApplyNext::Apply(plan);
            },
            Some(Err(e)) => {
                return ApplyNext::Fail(e);
            },
            Some(Ok(summary)) => written.absorb(&summary),
        }
    }
    finish_edit(title, command, written, executed, &inbound)
}

/// What comes next of applying one of the code actions of a range.
///
/// The action is named by its number in the list, by its title, or by both. The
/// list is asked for anew, so the number of an entry is the one that listing
/// the actions shows.
pub fn handle_apply_code_action(
    config: &ApplyConfig,
    params: &CodeActionParams,
    action_index: Option<usize>,
    action_title: Option<String>,
    progress: ApplyProgress,
) -> (r: ApplyNext)
    ensures
        r.deep_view() == apply_next(
            *config,
            params.deep_view(),
            action_index,
            action_title.deep_view(),
            progress,
        ),
{
    if let Err(e) = check_params(params) {
        return ApplyNext::Fail(e);
    }
    let selector = match selector_from_params(action_index, action_title) {
        Ok(selector) => selector,
        Err(e) => {
            return ApplyNext::Fail(e);
        },
    };
    if let Err(e) = config.applier_for(
        ToolKind::CodeActions,
        "apply_code_action",
        "apply.code_actions",
    ) {
        return ApplyNext::Fail(e);
    }
    let ghost whole = progress;
    let ApplyProgress { prepared, response, resolved, applied, executed, inbound } = progress;
    let at = match prepared {
        None => {
            return ApplyNext::Prepare(gate_actions(), params.span());
        },
        Some(Err(e)) => {
            return ApplyNext::Fail(e);
        },
        Some(Ok(at)) => at,
    };
    let entries = match response {
        None => {
            return ApplyNext::Request(params.request(at));
        },
        Some(Err(e)) => {
            return ApplyNext::Fail(e);
        },
        Some(Ok(None)) => Vec::new(),
        Some(Ok(Some(entries))) => entries,
    };
    let titles = titles_in(&entries);
    let chosen: usize = match answer_for(&titles, &selector) {
        Ok(index) => index,
        Err(e) => {
            return ApplyNext::Fail(e);
        },
    };
    match &entries[chosen] {
        CodeActionOrCommand::Command(command) => carry_out(
            &command.title,
            &None,
            &Some(command.dup()),
            applied,
            executed,
            inbound,
            Ghost(whole),
        ),
        CodeActionOrCommand::CodeAction(action) => {
            if action.edit.is_none() && action.data.is_some() {
                match resolved {
                    None => ApplyNext::Resolve(chosen),
                    Some(Err(e)) => ApplyNext::Fail(e),
                    Some(Ok(full)) => carry_out(
                        &full.title,
                        &full.edit,
                        &full.command,
                        applied,
                        executed,
                        inbound,
                        Ghost(whole),
                    ),
                }
            } else {
                carry_out(
                    &action.title,
                    &action.edit,
                    &action.command,
                    applied,
                    executed,
                    inbound,
                    Ghost(whole),
                )
            }
        },
    }
}

fn titles_in(entries: &Vec<CodeActionOrCommand>) -> (r: Vec<&str>)
    ensures
        actions::texts(r@) == entry_titles(entries@),
{
    let mut titles: Vec<&str> = Vec::new();
    let mut i: usize = 0;
    while i < entries.len()
        invariant
            i <= entries.len(),
            titles.len() == i,
            forall|j: int| 0 <= j < i ==> (#[trigger] titles@[j])@ == entry_title(entries@[j]),
        decreases entries.len() - i,
    {
        titles.push(
            match &entries[i] {
                CodeActionOrCommand::Command(command) => command.title.as_str(),
                CodeActionOrCommand::CodeAction(action) => action.title.as_str(),
            },
        );
        i = i + 1;
    }
    assert(actions::texts(titles@) =~= entry_titles(entries@));
    titles
}

/// The number by which a listed action is called names the same entry when it
/// is applied, whatever else the two of them show.
pub proof fn law_a_number_means_the_listed_action(
    entries: Seq<CodeActionOrCommand>,
    ctx: CtxView,
    uri: Seq<char>,
    i: int,
)
    requires
        0 <= i < entries.len() <= usize::MAX,
    ensures
        shown_edits::shown_list(entries, ctx, uri).len() == entries.len(),
        shown_edits::shown_list(entries, ctx, uri)[i].index == i,
        shown_edits::shown_list(entries, ctx, uri)[i].title == entry_titles(entries)[i],
{
}

/// Applying an action asks the server for exactly the list that listing the
/// actions of the same range and kind shows, so that its numbers mean the same.
pub proof fn law_applying_asks_as_listing_does(
    config: ApplyConfig,
    params: ParamsView,
    index: Option<usize>,
    title: Option<Seq<char>>,
    progress: ApplyProgress,
    ctx: CtxView,
)
    requires
        progress.response is None,
        config.code_actions,
        index is Some || title is Some,
    ensures
        code_actions_next(params, progress.prepared, None, ctx) matches CodeActionsNextView::Prepare(
            gate,
            at,
        ) ==> apply_next(config, params, index, title, progress) == ApplyNextView::Prepare(gate, at),
        code_actions_next(params, progress.prepared, None, ctx) matches CodeActionsNextView::Request(
            request,
        ) ==> apply_next(config, params, index, title, progress) == ApplyNextView::Request(request),
        code_actions_next(params, progress.prepared, None, ctx) matches CodeActionsNextView::Fail(e)
            ==> apply_next(config, params, index, title, progress) == ApplyNextView::Fail(e),
        !(code_actions_next(params, progress.prepared, None, ctx) is Done),
{
}

/// Nothing is written, and no command is run, without permission.
pub proof fn law_nothing_is_written_without_permission(
    config: ApplyConfig,
    params: ParamsView,
    index: Option<usize>,
    title: Option<Seq<char>>,
    progress: ApplyProgress,
)
    requires
        !config.code_actions,
    ensures
        apply_next(config, params, index, title, progress) is Fail,
{
}

/// A rename or a formatting that is not asked to write writes nothing.
pub proof fn law_a_preview_writes_nothing(
    config: ApplyConfig,
    params: RenameParamsView,
    place: Option<Result<PreparedPlace, Error>>,
    renames: Option<Result<Option<WorkspaceEdit>, Error>>,
    options: FormatOptions,
    document: Option<Result<String, Error>>,
    formats: Option<Result<Option<Vec<plan::TextEdit>>, Error>>,
    ctx: CtxView,
    applied: Option<Result<ApplySummary, Error>>,
)
    ensures
        !(rename_next(config, params, false, place, renames, ctx, applied) is Apply),
        rename_next(config, params, false, place, renames, ctx, applied) matches RenameNextView::Done(
            result,
        ) ==> !result.applied && result.files_written.len() == 0,
        !(format_next(config, options, false, document, formats, ctx, applied) is Apply),
        format_next(config, options, false, document, formats, ctx, applied) matches FormatNextView::Done(result)
            ==> !result.applied,
{
}

/// A document that needs no edit is left alone, whatever was asked.
pub proof fn law_a_formatted_document_is_left_alone(
    config: ApplyConfig,
    uri: String,
    options: FormatOptions,
    apply: bool,
    ctx: CtxView,
    applied: Option<Result<ApplySummary, Error>>,
)
    requires
        apply ==> config.format_document,
    ensures
        format_next(
            config,
            options,
            apply,
            Some(Ok::<String, Error>(uri)),
            Some(Ok::<Option<Vec<plan::TextEdit>>, Error>(None)),
            ctx,
            applied,
        ) == FormatNextView::Done(FormatView { edits: Seq::empty(), applied: false }),
{
    let none = Seq::<TextEditView>::empty();
    assert(shown_edits::shown_edits(shown_edits::source_of(ctx, uri@), none) =~= Seq::empty());
}

/// A command is not run before the edit of its action was written.
pub proof fn law_the_edit_comes_before_the_command(
    title: Seq<char>,
    edit: WorkspaceEdit,
    command: Option<Command>,
    progress: ApplyProgress,
)
    requires
        carried_out(title, Some(edit), command, progress) is Execute,
    ensures
        progress.applied matches Some(Ok(_)),
{
}

/// Something that was written stays reported, whatever is written after it.
pub proof fn law_a_write_stays_reported(written: InboundView, summaries: Seq<SummaryView>)
    ensures
        written.changed_the_tree ==> edits::all_absorbed(written, summaries).changed_the_tree,
        written.files_written.is_prefix_of(edits::all_absorbed(written, summaries).files_written),
        forall|i: int|
            0 <= i < summaries.len() && edits::changed(#[trigger] summaries[i])
                ==> edits::all_absorbed(written, summaries).changed_the_tree,
    decreases summaries.len(),
{
    if summaries.len() > 0 {
        law_a_write_stays_reported(written, summaries.drop_last());
        assert forall|i: int|
            0 <= i < summaries.len() && edits::changed(#[trigger] summaries[i]) implies edits::all_absorbed(
            written,
            summaries,
        ).changed_the_tree by {
            if i < summaries.len() - 1 {
                assert(summaries.drop_last()[i] == summaries[i]);
            }
        }
    }
}

} // verus!
