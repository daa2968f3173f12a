//! What is shown of plans and code actions, and what renaming, formatting and
//! applying make of them.

use crate::actions;
use crate::actions::SelectorView;
use crate::edit_requests;
use crate::edit_requests::{
    ApplyNextView, ApplyProgress, CodeActionsNextView, FormatNextView, FormatOptions, ParamsView,
    PreparedPlace, PreparedSpan, RenameNextView, RenameParamsView,
};
use crate::edits;
use crate::edits::{ApplyConfig, ApplySummary, InboundView, SummaryView, ToolKind};
use crate::error::{Error, ErrorView};
use crate::ledger::SourceView;
use crate::plan;
use crate::plan::{OperationView, TextEditView, WorkspaceEdit};
use crate::plan_laws;
use crate::reply;
use crate::shown_edits;
use crate::shown_edits::{
    CodeActionOrCommand, CodeActionView, Command, CommandView, CtxView, DocumentChangesView,
    LspCodeAction, ResourceOperationView, ShownEditView,
};
use vstd::prelude::*;
use vstd::string::*;

verus! {

/// Whether an operation edits a document.
pub open spec fn edits_a_document(op: OperationView) -> bool {
    op is Edit
}

/// The operations of a plan that edit a document, in their order.
pub open spec fn document_edits(ops: Seq<OperationView>) -> Seq<OperationView> {
    ops.filter(|op: OperationView| edits_a_document(op))
}

/// The operations of a plan that change which files there are, in their order.
pub open spec fn file_operations(ops: Seq<OperationView>) -> Seq<OperationView> {
    ops.filter(|op: OperationView| !edits_a_document(op))
}

/// Whether `out` shows `edit`: the same text, put at the place that the
/// document's text gives its range.
pub open spec fn shows_edit(source: SourceView, edit: TextEditView, out: ShownEditView) -> bool {
    &&& out.new_text == edit.new_text
    &&& out.range.start == reply::position_in(source, edit.range.start)
    &&& out.range.end == reply::position_in(source, edit.range.end)
}

/// Whether `out` shows each of `list`, in order.
pub open spec fn shows_edits(
    source: SourceView,
    list: Seq<TextEditView>,
    out: Seq<ShownEditView>,
) -> bool {
    &&& out.len() == list.len()
    &&& forall|j: int| 0 <= j < list.len() ==> shows_edit(source, list[j], #[trigger] out[j])
}

/// Whether what is read of a document counts columns as the server does, and is
/// the first text that is known of it.
pub open spec fn reads(ctx: CtxView, uri: Seq<char>, source: SourceView) -> bool {
    &&& source.uri == uri
    &&& source.encoding == ctx.encoding
    &&& match source.text {
        Some(t) => exists|i: int|
            0 <= i < ctx.texts.len() && #[trigger] ctx.texts[i] == (uri, t) && forall|j: int|
                0 <= j < i ==> (#[trigger] ctx.texts[j]).0 != uri,
        None => forall|j: int| 0 <= j < ctx.texts.len() ==> (#[trigger] ctx.texts[j]).0 != uri,
    }
}

/// A document's positions are read against the first text that is known of it,
/// and against none where none is known.
pub proof fn law_the_first_text_counts(ctx: CtxView, uri: Seq<char>)
    ensures
        reads(ctx, uri, shown_edits::source_of(ctx, uri)),
    decreases ctx.texts.len(),
{
    if ctx.texts.len() > 0 {
        let less = CtxView { encoding: ctx.encoding, texts: ctx.texts.drop_last() };
        law_the_first_text_counts(less, uri);
        let n = ctx.texts.len() - 1;
        let found = shown_edits::known_text(ctx.texts, uri);
        if let Some(t) = shown_edits::known_text(less.texts, uri) {
            let i = choose|i: int|
                0 <= i < less.texts.len() && #[trigger] less.texts[i] == (uri, t) && forall|j: int|
                    0 <= j < i ==> (#[trigger] less.texts[j]).0 != uri;
            assert(ctx.texts[i] == (uri, t));
            assert forall|j: int| 0 <= j < i implies (#[trigger] ctx.texts[j]).0 != uri by {
                assert(less.texts[j].0 != uri);
            }
        } else {
            assert forall|j: int| 0 <= j < n implies (#[trigger] ctx.texts[j]).0 != uri by {
                assert(less.texts[j].0 != uri);
            }
            if found is Some {
                assert(ctx.texts[n] == (uri, found->Some_0));
            }
        }
    }
}

/// Whether `out` shows the operation that edits a document.
pub open spec fn shows_document(ctx: CtxView, op: OperationView, out: DocumentChangesView) -> bool {
    match op {
        OperationView::Edit { uri, version, edits } => {
            &&& out.uri == uri
            &&& exists|source: SourceView| #[trigger]
                reads(ctx, uri, source) && shows_edits(source, edits, out.edits)
        },
        _ => false,
    }
}

/// What is shown of a plan's edits is one entry for each operation that edits a
/// document, in their order: that document, and each of its edits.
pub proof fn law_every_document_is_shown(ctx: CtxView, ops: Seq<OperationView>)
    ensures
        shown_edits::shown_changes(ctx, ops).len() == document_edits(ops).len(),
        forall|i: int|
            0 <= i < document_edits(ops).len() ==> shows_document(
                ctx,
                document_edits(ops)[i],
                #[trigger] shown_edits::shown_changes(ctx, ops)[i],
            ),
    decreases ops.len(),
{
    reveal(Seq::filter);
    if ops.len() > 0 {
        let less = ops.drop_last();
        law_every_document_is_shown(ctx, less);
        let before = shown_edits::shown_changes(ctx, less);
        let after = shown_edits::shown_changes(ctx, ops);
        if let OperationView::Edit { uri, version, edits } = ops.last() {
            law_the_first_text_counts(ctx, uri);
            let source = shown_edits::source_of(ctx, uri);
            assert(document_edits(ops) == document_edits(less).push(ops.last()));
            let out = after.last();
            assert(reads(ctx, uri, source) && shows_edits(source, edits, out.edits));
            assert(shows_document(ctx, ops.last(), out));
            assert forall|i: int| 0 <= i < document_edits(ops).len() implies shows_document(
                ctx,
                document_edits(ops)[i],
                #[trigger] after[i],
            ) by {
                if i < before.len() {
                    assert(after[i] == before[i]);
                }
            }
        } else {
            assert(document_edits(ops) == document_edits(less));
        }
    } else {
        assert(document_edits(ops).len() == 0);
    }
}

/// Whether `out` shows an operation that changes which files there are.
pub open spec fn shows_operation(op: OperationView, out: ResourceOperationView) -> bool {
    match op {
        OperationView::Edit { .. } => false,
        OperationView::Create { uri, .. } => out.kind == "create"@ && out.uri == uri
            && out.new_uri is None,
        OperationView::Rename { old: from, new: to, .. } => out.kind == "rename"@ && out.uri == from
            && out.new_uri == Some(to),
        OperationView::Delete { uri, .. } => out.kind == "delete"@ && out.uri == uri
            && out.new_uri is None,
    }
}

/// What is shown of a plan's file-system operations is one entry for each of
/// them, in their order.
pub proof fn law_every_file_operation_is_shown(ops: Seq<OperationView>)
    ensures
        shown_edits::shown_operations(ops).len() == file_operations(ops).len(),
        forall|i: int|
            0 <= i < file_operations(ops).len() ==> shows_operation(
                file_operations(ops)[i],
                #[trigger] shown_edits::shown_operations(ops)[i],
            ),
    decreases ops.len(),
{
    reveal(Seq::filter);
    if ops.len() > 0 {
        let less = ops.drop_last();
        law_every_file_operation_is_shown(less);
        let before = shown_edits::shown_operations(less);
        let after = shown_edits::shown_operations(ops);
        if ops.last() is Edit {
            assert(file_operations(ops) == file_operations(less));
        } else {
            assert(file_operations(ops) == file_operations(less).push(ops.last()));
            assert forall|i: int| 0 <= i < file_operations(ops).len() implies shows_operation(
                file_operations(ops)[i],
                #[trigger] after[i],
            ) by {
                if i < before.len() {
                    assert(after[i] == before[i]);
                }
            }
        }
    } else {
        assert(file_operations(ops).len() == 0);
    }
}

/// Nothing of a plan is left out: every operation is shown either among the
/// edits or among the file-system operations.
pub proof fn law_nothing_of_a_plan_is_left_out(ctx: CtxView, ops: Seq<OperationView>)
    ensures
        shown_edits::shown_changes(ctx, ops).len() + shown_edits::shown_operations(ops).len()
            == ops.len(),
    decreases ops.len(),
{
    if ops.len() > 0 {
        law_nothing_of_a_plan_is_left_out(ctx, ops.drop_last());
    }
}

/// Whether `out` shows a command: its title, its name and all its arguments, in
/// order.
pub open spec fn shows_command(command: Command, out: CommandView) -> bool {
    &&& out.title == command.title@
    &&& out.command == command.command@
    &&& match command.arguments {
        Some(list) => out.arguments.len() == list@.len() && forall|i: int|
            0 <= i < list@.len() ==> #[trigger] out.arguments[i] == list@[i]@,
        None => out.arguments.len() == 0,
    }
}

/// Whether `out` shows a code action on the document `uri`. An edit that cannot
/// be planned is not shown.
pub open spec fn shows_action(
    action: LspCodeAction,
    ctx: CtxView,
    uri: Seq<char>,
    out: CodeActionView,
) -> bool {
    &&& out.title == action.title@
    &&& match action.kind {
        Some(kind) => out.kind == Some(kind@),
        None => out.kind is None,
    }
    &&& match action.diagnostics {
        Some(list) => out.diagnostics.len() == list@.len() && exists|source: SourceView| #[trigger]
            reads(ctx, uri, source) && forall|i: int|
                0 <= i < list@.len() ==> #[trigger] out.diagnostics[i] == reply::shown(
                    source,
                    list@[i].deep_view(),
                ),
        None => out.diagnostics.len() == 0,
    }
    &&& match action.edit {
        Some(edit) => match plan::plan_of(edit) {
            Ok(ops) => {
                &&& out.edit is Some
                &&& out.edit->Some_0.changes.len() == document_edits(ops).len()
                &&& out.edit->Some_0.resource_operations.len() == file_operations(ops).len()
                &&& forall|i: int|
                    0 <= i < document_edits(ops).len() ==> shows_document(
                        ctx,
                        document_edits(ops)[i],
                        #[trigger] out.edit->Some_0.changes[i],
                    )
                &&& forall|i: int|
                    0 <= i < file_operations(ops).len() ==> shows_operation(
                        file_operations(ops)[i],
                        #[trigger] out.edit->Some_0.resource_operations[i],
                    )
            },
            Err(_) => out.edit is None,
        },
        None => out.edit is None,
    }
    &&& match action.command {
        Some(command) => out.command is Some && shows_command(command, out.command->Some_0),
        None => out.command is None,
    }
    &&& out.is_preferred <==> action.is_preferred == Some(true)
}

/// A code action is shown as it was sent.
pub proof fn law_an_action_is_shown_as_sent(action: LspCodeAction, ctx: CtxView, uri: Seq<char>)
    ensures
        shows_action(action, ctx, uri, shown_edits::converted(action, ctx, uri)),
{
    law_the_first_text_counts(ctx, uri);
    if let Some(edit) = action.edit {
        if let Ok(ops) = plan::plan_of(edit) {
            law_every_document_is_shown(ctx, ops);
            law_every_file_operation_is_shown(ops);
        }
    }
    let out = shown_edits::converted(action, ctx, uri);
    if let Some(list) = action.diagnostics {
        let source = shown_edits::source_of(ctx, uri);
        assert(reads(ctx, uri, source));
        assert(list.deep_view().len() == list@.len());
    }
}

/// A server's list is shown entry by entry, each at its own place and under its
/// own number: a bare command as its command alone, an action as it was sent.
pub proof fn law_a_list_is_shown_entry_by_entry(
    entries: Seq<CodeActionOrCommand>,
    ctx: CtxView,
    uri: Seq<char>,
)
    requires
        entries.len() <= usize::MAX,
    ensures
        shown_edits::shown_list(entries, ctx, uri).len() == entries.len(),
        forall|i: int|
            0 <= i < entries.len() ==> {
                let out = #[trigger] shown_edits::shown_list(entries, ctx, uri)[i];
                &&& out.index == i
                &&& match entries[i] {
                    CodeActionOrCommand::Command(command) => {
                        &&& out.title == command.title@
                        &&& out.command is Some && shows_command(command, out.command->Some_0)
                        &&& out.kind is None
                        &&& out.edit is None
                        &&& out.diagnostics.len() == 0
                        &&& !out.is_preferred
                    },
                    CodeActionOrCommand::CodeAction(action) => shows_action(action, ctx, uri, out),
                }
            },
{
    let all = shown_edits::shown_list(entries, ctx, uri);
    assert forall|i: int| 0 <= i < entries.len() implies {
        let out = #[trigger] all[i];
        &&& out.index == i
        &&& match entries[i] {
            CodeActionOrCommand::Command(command) => {
                &&& out.title == command.title@
                &&& out.command is Some && shows_command(command, out.command->Some_0)
                &&& out.kind is None
                &&& out.edit is None
                &&& out.diagnostics.len() == 0
                &&& !out.is_preferred
            },
            CodeActionOrCommand::CodeAction(action) => shows_action(action, ctx, uri, out),
        }
    } by {
        if let CodeActionOrCommand::CodeAction(action) = entries[i] {
            law_an_action_is_shown_as_sent(action, ctx, uri);
        }
    }
}

/// Listing asks the prepared document's server for the prepared range, of one
/// kind or of all, and shows every entry of the answer.
pub proof fn law_listing_asks_for_what_was_named(
    params: ParamsView,
    at: PreparedSpan,
    answer: Option<Vec<CodeActionOrCommand>>,
    ctx: CtxView,
)
    requires
        edit_requests::params_error(params) is None,
    ensures
        edit_requests::code_actions_next(params, None, None, ctx) matches CodeActionsNextView::Prepare(
            gate,
            span,
        ) && gate.tool == ToolKind::CodeActions && span.start.line == params.start_line
            && span.start.character == params.start_character && span.end.line == params.end_line
            && span.end.character == params.end_character,
        edit_requests::code_actions_next(
            params,
            Some(Ok::<PreparedSpan, Error>(at)),
            None,
            ctx,
        ) matches CodeActionsNextView::Request(request) && request.uri == at.uri@ && request.range
            == at.range && request.diagnostics.len() == 0 && match params.kind_filter {
            Some(kind) => request.only is Some && request.only->Some_0.len() == 1
                && request.only->Some_0[0] == kind,
            None => request.only is None,
        },
        edit_requests::code_actions_next(
            params,
            Some(Ok::<PreparedSpan, Error>(at)),
            Some(Ok::<Option<Vec<CodeActionOrCommand>>, Error>(answer)),
            ctx,
        ) matches CodeActionsNextView::Done(list) && list.len() == (match answer {
            Some(entries) => entries@.len(),
            None => 0,
        }),
{
}

/// A rename asks for the symbol at the place that was named, under the name
/// that was given.
pub proof fn law_a_rename_asks_for_what_was_named(
    config: ApplyConfig,
    params: RenameParamsView,
    apply: bool,
    at: PreparedPlace,
    ctx: CtxView,
)
    requires
        actions::rename_params_error(params.new_name) is None,
        apply ==> config.rename,
    ensures
        edit_requests::rename_next(config, params, apply, None, None, ctx, None) matches RenameNextView::Prepare(
            gate,
            place,
        ) && gate.tool == ToolKind::Rename && place.line == params.line && place.character
            == params.character,
        edit_requests::rename_next(
            config,
            params,
            apply,
            Some(Ok::<PreparedPlace, Error>(at)),
            None,
            ctx,
            None,
        ) matches RenameNextView::Request(request) && request.uri == at.uri@ && request.position
            == at.position && request.new_name == params.new_name,
{
}

/// A rename that writes, writes the whole plan of the server's edit. It shows
/// the same changes as one that only looks, whatever was written, and beside
/// them what was written: each file, and whether anything changed.
pub proof fn law_a_rename_writes_what_it_shows(
    config: ApplyConfig,
    params: RenameParamsView,
    at: PreparedPlace,
    edit: WorkspaceEdit,
    ctx: CtxView,
    summary: ApplySummary,
)
    requires
        actions::rename_params_error(params.new_name) is None,
        config.rename,
        plan::plan_of(edit) is Ok,
    ensures
        ({
            let place = Some(Ok::<PreparedPlace, Error>(at));
            let response = Some(Ok::<Option<WorkspaceEdit>, Error>(Some(edit)));
            let ops = plan::plan_of(edit)->Ok_0;
            let write = edit_requests::rename_next(config, params, true, place, response, ctx, None);
            let done = edit_requests::rename_next(
                config,
                params,
                true,
                place,
                response,
                ctx,
                Some(Ok::<ApplySummary, Error>(summary)),
            );
            let look = edit_requests::rename_next(config, params, false, place, response, ctx, None);
            &&& write == RenameNextView::Apply(ops)
            &&& done matches RenameNextView::Done(result) && look matches RenameNextView::Done(preview) && {
                &&& result.changes == preview.changes
                &&& result.resource_operations == preview.resource_operations
                &&& result.changes.len() == document_edits(ops).len()
                &&& result.resource_operations.len() == file_operations(ops).len()
                &&& forall|i: int|
                    0 <= i < document_edits(ops).len() ==> shows_document(
                        ctx,
                        document_edits(ops)[i],
                        #[trigger] result.changes[i],
                    )
                &&& forall|i: int|
                    0 <= i < file_operations(ops).len() ==> shows_operation(
                        file_operations(ops)[i],
                        #[trigger] result.resource_operations[i],
                    )
                &&& result.files_written == summary.files_changed.deep_view()
                &&& result.applied <==> summary.files_changed@.len() > 0
                    || summary.resource_operations@.len() > 0
            }
        }),
{
    let ops = plan::plan_of(edit)->Ok_0;
    law_every_document_is_shown(ctx, ops);
    law_every_file_operation_is_shown(ops);
}

/// A rename fails where the document cannot be prepared, where the server
/// fails, where its edit cannot be planned and where the plan cannot be
/// written, each time with that very error.
pub proof fn law_a_rename_passes_errors_on(
    config: ApplyConfig,
    params: RenameParamsView,
    at: PreparedPlace,
    edit: WorkspaceEdit,
    e: Error,
    ctx: CtxView,
)
    requires
        actions::rename_params_error(params.new_name) is None,
        config.rename,
    ensures
        ({
            let place = Some(Ok::<PreparedPlace, Error>(at));
            let response = Some(Ok::<Option<WorkspaceEdit>, Error>(Some(edit)));
            let failed = RenameNextView::Fail(e.deep_view());
            &&& edit_requests::rename_next(
                config,
                params,
                true,
                Some(Err::<PreparedPlace, Error>(e)),
                None,
                ctx,
                None,
            ) == failed
            &&& edit_requests::rename_next(
                config,
                params,
                true,
                place,
                Some(Err::<Option<WorkspaceEdit>, Error>(e)),
                ctx,
                None,
            ) == failed
            &&& plan::plan_of(edit) matches Err(why) ==> edit_requests::rename_next(
                config,
                params,
                true,
                place,
                response,
                ctx,
                None,
            ) == RenameNextView::Fail(why)
            &&& plan::plan_of(edit) is Ok ==> edit_requests::rename_next(
                config,
                params,
                true,
                place,
                response,
                ctx,
                Some(Err::<ApplySummary, Error>(e)),
            ) == failed
        }),
{
}

/// Formatting asks for the prepared document with the options that were given,
/// and shows each edit of the answer.
pub proof fn law_formatting_shows_each_edit(
    config: ApplyConfig,
    options: FormatOptions,
    uri: String,
    list: Vec<plan::TextEdit>,
    ctx: CtxView,
)
    ensures
        edit_requests::format_next(
            config,
            options,
            false,
            Some(Ok::<String, Error>(uri)),
            None,
            ctx,
            None,
        ) matches FormatNextView::Request(request) && request.uri == uri@ && request.options
            == options,
        edit_requests::format_next(
            config,
            options,
            false,
            Some(Ok::<String, Error>(uri)),
            Some(Ok::<Option<Vec<plan::TextEdit>>, Error>(Some(list))),
            ctx,
            None,
        ) matches FormatNextView::Done(result) && !result.applied && exists|source: SourceView|
            #[trigger] reads(ctx, uri@, source) && shows_edits(
                source,
                list.deep_view(),
                result.edits,
            ),
{
    law_the_first_text_counts(ctx, uri@);
    let source = shown_edits::source_of(ctx, uri@);
    let shown = shown_edits::shown_edits(source, list.deep_view());
    assert(reads(ctx, uri@, source) && shows_edits(source, list.deep_view(), shown));
}

/// The plan of one document's edits is the one operation that splices them into
/// that document, and there is one exactly where no two of them overlap.
proof fn lemma_one_document(uri: Seq<char>, list: Seq<TextEditView>)
    ensures
        edit_requests::document_plan(uri, list) is Ok <==> plan_laws::apart(list),
        edit_requests::document_plan(uri, list) matches Ok(ops) ==> ops.len() == 1
            && plan_laws::splices(ops[0], uri, None, list),
{
    let edit = plan::TextDocumentEditView { uri, version: None, edits: list };
    let keyed = plan::edits_as_changes(seq![edit]).map(
        |_i, c: plan::ChangeView| plan::keyed(c),
    );
    assert(keyed.len() == 1);
    assert(keyed[0] == plan::keyed(plan::ChangeView::Edit(edit)));
    assert(keyed.drop_last().len() == 0);
    assert(plan::planned(keyed.drop_last()) is Ok);
    assert(keyed.last() == keyed[0]);
    plan_laws::law_a_document_is_spliced_bottom_up(uri, None, list);
    assert(edit_requests::document_plan(uri, list) == plan::planned_operations(keyed));
}

/// Formatting that writes, splices all the edits of the answer into that one
/// document. It is refused where two of them overlap. It shows the same edits
/// as one that only looks, and says whether anything was written.
pub proof fn law_formatting_writes_what_it_shows(
    config: ApplyConfig,
    options: FormatOptions,
    uri: String,
    list: Vec<plan::TextEdit>,
    ctx: CtxView,
    summary: ApplySummary,
)
    requires
        config.format_document,
        list@.len() > 0,
    ensures
        ({
            let document = Some(Ok::<String, Error>(uri));
            let response = Some(Ok::<Option<Vec<plan::TextEdit>>, Error>(Some(list)));
            let write = edit_requests::format_next(
                config,
                options,
                true,
                document,
                response,
                ctx,
                None,
            );
            let done = edit_requests::format_next(
                config,
                options,
                true,
                document,
                response,
                ctx,
                Some(Ok::<ApplySummary, Error>(summary)),
            );
            let look = edit_requests::format_next(
                config,
                options,
                false,
                document,
                response,
                ctx,
                None,
            );
            &&& plan_laws::apart(list.deep_view()) ==> (write matches FormatNextView::Apply(ops)
                && ops.len() == 1 && plan_laws::splices(ops[0], uri@, None, list.deep_view()))
            &&& plan_laws::apart(list.deep_view()) ==> (done matches FormatNextView::Done(result)
                && look matches FormatNextView::Done(preview) && result.edits == preview.edits && (
            result.applied <==> summary.files_changed@.len() > 0
                || summary.resource_operations@.len() > 0))
            &&& !plan_laws::apart(list.deep_view()) ==> write is Fail && done is Fail
        }),
{
    lemma_one_document(uri@, list.deep_view());
    assert(list.deep_view().len() == list@.len());
}

/// Without permission a rename or a formatting that is to write fails, and
/// names the setting that would allow it.
pub proof fn law_permission_is_asked_by_tool(
    config: ApplyConfig,
    params: RenameParamsView,
    options: FormatOptions,
    place: Option<Result<PreparedPlace, Error>>,
    document: Option<Result<String, Error>>,
    renames: Option<Result<Option<WorkspaceEdit>, Error>>,
    formats: Option<Result<Option<Vec<plan::TextEdit>>, Error>>,
    ctx: CtxView,
    applied: Option<Result<ApplySummary, Error>>,
)
    ensures
        !config.rename && actions::rename_params_error(params.new_name) is None
            ==> edit_requests::rename_next(config, params, true, place, renames, ctx, applied)
            == RenameNextView::Fail(
            ErrorView::ApplyDisabled { tool: "rename_symbol"@, config_key: "apply.rename"@ },
        ),
        !config.format_document ==> edit_requests::format_next(
            config,
            options,
            true,
            document,
            formats,
            ctx,
            applied,
        ) == FormatNextView::Fail(
            ErrorView::ApplyDisabled {
                tool: "format_document"@,
                config_key: "apply.format_document"@,
            },
        ),
{
}

/// A number picks the entry at that place; a title picks the one entry that has
/// it; both pick the entry at that place where it has that title. Anything else
/// is refused.
pub proof fn law_what_is_picked(titles: Seq<Seq<char>>, index: usize, title: Seq<char>, i: int)
    requires
        titles.len() <= usize::MAX,
    ensures
        edits::selected(titles, SelectorView::Index(index)) is Ok <==> index < titles.len(),
        edits::selected(titles, SelectorView::Index(index)) matches Ok(at) ==> at == index,
        edits::selected(titles, SelectorView::ConfirmedIndex { index, title }) is Ok <==> index
            < titles.len() && titles[index as int] == title,
        edits::selected(titles, SelectorView::ConfirmedIndex { index, title }) matches Ok(at)
            ==> at == index,
        edits::selected(titles, SelectorView::Title(title)) matches Ok(at) ==> at < titles.len()
            && titles[at as int] == title && (0 <= i < titles.len() && titles[i] == title ==> i
            == at),
        0 <= i < titles.len() && titles[i] == title && (forall|j: int|
            0 <= j < titles.len() && #[trigger] titles[j] == title ==> j == i)
            ==> edits::selected(titles, SelectorView::Title(title)) == Ok::<usize, ErrorView>(
            i as usize,
        ),
{
    let picked = edits::selected(titles, SelectorView::Title(title));
    if picked is Ok {
        let c = choose|c: int| actions::titled(titles, title, c);
        assert(actions::titled(titles, title, c));
        if 0 <= i < titles.len() && titles[i] == title {
            assert(actions::titled(titles, title, i));
            if i < c {
                assert(actions::twice_titled(titles, title));
            }
            if c < i {
                assert(actions::twice_titled(titles, title));
            }
        }
    }
    if 0 <= i < titles.len() && titles[i] == title && (forall|j: int|
        0 <= j < titles.len() && #[trigger] titles[j] == title ==> j == i) {
        assert(actions::titled(titles, title, i));
        if actions::twice_titled(titles, title) {
            let (p, q) = choose|p: int, q: int|
                p < q && #[trigger] actions::titled(titles, title, p) && #[trigger] actions::titled(
                    titles,
                    title,
                    q,
                );
            assert(p == i && q == i);
        }
        let c = choose|c: int| actions::titled(titles, title, c);
        assert(titles[c] == title);
    }
}

/// Once the server's list is there, applying goes on with the picked entry of
/// it and no other.
pub proof fn law_applying_goes_on_with_the_picked_entry(
    config: ApplyConfig,
    params: ParamsView,
    index: usize,
    progress: ApplyProgress,
    entries: Vec<CodeActionOrCommand>,
)
    requires
        edit_requests::params_error(params) is None,
        config.code_actions,
        progress.prepared matches Some(Ok(_)),
        progress.response == Some(
            Ok::<Option<Vec<CodeActionOrCommand>>, Error>(Some(entries)),
        ),
    ensures
        index < entries@.len() ==> edit_requests::apply_next(
            config,
            params,
            Some(index),
            None,
            progress,
        ) == edit_requests::entry_next(entries@[index as int], index, progress),
        index >= entries@.len() ==> edit_requests::apply_next(
            config,
            params,
            Some(index),
            None,
            progress,
        ) is Fail,
        index < entries@.len() ==> edit_requests::apply_next(
            config,
            params,
            Some(index),
            Some(edit_requests::entry_title(entries@[index as int])),
            progress,
        ) == edit_requests::entry_next(entries@[index as int], index, progress),
{
    assert(edit_requests::entry_titles(entries@).len() == entries@.len());
}

/// An action that has its edit, or that the server does not offer to resolve,
/// is carried out as it was listed. Another is resolved first, and carried out
/// as it came back.
pub proof fn law_an_action_is_resolved_where_it_must_be(
    action: LspCodeAction,
    index: usize,
    progress: ApplyProgress,
    full: LspCodeAction,
)
    ensures
        action.edit is Some || action.data is None ==> edit_requests::entry_next(
            CodeActionOrCommand::CodeAction(action),
            index,
            progress,
        ) == edit_requests::carried_out(action.title@, action.edit, action.command, progress),
        action.edit is None && action.data is Some && progress.resolved is None
            ==> edit_requests::entry_next(
            CodeActionOrCommand::CodeAction(action),
            index,
            progress,
        ) == ApplyNextView::Resolve(index),
        action.edit is None && action.data is Some && progress.resolved == Some(
            Ok::<LspCodeAction, Error>(full),
        ) ==> edit_requests::entry_next(CodeActionOrCommand::CodeAction(action), index, progress)
            == edit_requests::carried_out(full.title@, full.edit, full.command, progress),
{
}

/// Everything that was written is reported, in the order in which it was
/// written: the files and the operations of each summary stand where the ones
/// before it end.
pub proof fn law_every_write_is_reported(
    written: InboundView,
    summaries: Seq<SummaryView>,
    more: SummaryView,
)
    ensures
        edits::all_absorbed(written, Seq::empty()) == written,
        ({
            let before = edits::all_absorbed(written, summaries);
            let after = edits::all_absorbed(written, summaries.push(more));
            &&& after.files_written == before.files_written + more.files_changed
            &&& after.resource_operations == before.resource_operations + more.resource_operations
            &&& after.changed_the_tree <==> before.changed_the_tree || more.files_changed.len() > 0
                || more.resource_operations.len() > 0
        }),
{
    assert(summaries.push(more).drop_last() =~= summaries);
}

/// An action's edit is planned and written first. Then its command is run, as
/// it was sent. In the end the action's title and the command's name are
/// reported with everything that the edit and the command wrote.
pub proof fn law_an_action_is_carried_out_in_full(
    title: Seq<char>,
    edit: WorkspaceEdit,
    command: Command,
    progress: ApplyProgress,
    summary: ApplySummary,
)
    requires
        plan::plan_of(edit) is Ok,
    ensures
        progress.applied is None ==> edit_requests::carried_out(
            title,
            Some(edit),
            Some(command),
            progress,
        ) == ApplyNextView::Apply(plan::plan_of(edit)->Ok_0),
        progress.applied == Some(Ok::<ApplySummary, Error>(summary)) && progress.executed is None
            ==> (edit_requests::carried_out(title, Some(edit), Some(command), progress) matches ApplyNextView::Execute(
            sent,
        ) && shows_command(command, sent)),
        progress.applied == Some(Ok::<ApplySummary, Error>(summary)) && progress.executed == Some(
            Ok::<(), Error>(()),
        ) ==> (edit_requests::carried_out(title, Some(edit), Some(command), progress) matches ApplyNextView::Done(
            result,
        ) && result.title == title && result.executed_command == Some(command.command@)
            && result.written == edits::all_absorbed(
            InboundView {
                changed_the_tree: summary.files_changed@.len() > 0
                    || summary.resource_operations@.len() > 0,
                files_written: summary.files_changed.deep_view(),
                resource_operations: summary.resource_operations.deep_view(),
            },
            progress.inbound.deep_view(),
        )),
        progress.applied == Some(Ok::<ApplySummary, Error>(summary)) && (
        summary.files_changed@.len() > 0 || summary.resource_operations@.len() > 0) ==> (
        edit_requests::carried_out(title, Some(edit), None, progress) matches ApplyNextView::Done(
            result,
        ) && result.title == title && result.executed_command is None
            && result.written.files_written == summary.files_changed.deep_view()
            && result.written.resource_operations == summary.resource_operations.deep_view()
            && result.written.changed_the_tree),
{
    let first = edits::absorbed(edits::nothing_written(), summary.deep_view());
    assert(first.files_written =~= summary.files_changed.deep_view());
    assert(first.resource_operations =~= summary.resource_operations.deep_view());
}

/// A bare command is run as it was sent, and reported under its title.
pub proof fn law_a_bare_command_is_run(
    command: Command,
    index: usize,
    progress: ApplyProgress,
)
    ensures
        progress.executed is None ==> (edit_requests::entry_next(
            CodeActionOrCommand::Command(command),
            index,
            progress,
        ) matches ApplyNextView::Execute(sent) && shows_command(command, sent)),
        progress.executed == Some(Ok::<(), Error>(())) ==> (edit_requests::entry_next(
            CodeActionOrCommand::Command(command),
            index,
            progress,
        ) matches ApplyNextView::Done(result) && result.title == command.title@
            && result.executed_command == Some(command.command@) && result.written
            == edits::all_absorbed(
            InboundView {
                changed_the_tree: false,
                files_written: Seq::empty(),
                resource_operations: Seq::empty(),
            },
            progress.inbound.deep_view(),
        )),
{
}

/// A request for code actions is in order exactly where its kind, if it names
/// one, is known, its places count from one, none of them is beyond the
/// largest, and it spans no more lines than it may and does not end before it
/// starts.
pub proof fn law_which_requests_are_in_order(params: ParamsView)
    ensures
        edit_requests::params_error(params) is None <==> {
            &&& params.kind_filter matches Some(kind) ==> actions::known_action_kind(kind)
            &&& 1 <= params.start_line <= actions::MAX_POSITION_VALUE
            &&& 1 <= params.start_character <= actions::MAX_POSITION_VALUE
            &&& 1 <= params.end_line <= actions::MAX_POSITION_VALUE
            &&& 1 <= params.end_character <= actions::MAX_POSITION_VALUE
            &&& params.start_line <= params.end_line <= params.start_line + actions::MAX_RANGE_LINES
            &&& params.start_line == params.end_line ==> params.start_character
                <= params.end_character
        },
        edit_requests::params_error(params) matches Some(e) ==> e is InvalidToolParams,
{
}

/// A new name can be given exactly where it is not too long, counted in bytes.
pub proof fn law_which_names_can_be_given(new_name: Seq<char>)
    ensures
        actions::rename_params_error(new_name) is None <==> crate::encoding::units(
            crate::encoding::PositionEncoding::Utf8,
            new_name,
        ) <= actions::MAX_NEW_NAME_LENGTH,
        actions::rename_params_error(new_name) matches Some(e) ==> e is InvalidToolParams,
{
}

} // verus!
