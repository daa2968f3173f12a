use mcpls_core::actions::{
    choose_title, selector_from_params, validate_code_action_params, validate_rename_params,
    Choice, CodeActionSelector, MAX_NEW_NAME_LENGTH, MAX_POSITION_VALUE, MAX_RANGE_LINES,
};
use mcpls_core::diagnostics::{self, Position, Range};
use mcpls_core::edit_requests::{
    does_nothing_error, handle_apply_code_action, handle_code_actions, handle_format_document,
    handle_rename, offers, Announced, ApplyNext, ApplyProgress, CodeActionParams,
    CodeActionRequest, CodeActionsNext, FormatNext, FormatOptions, FormatRequest, Gate, Place,
    PreparedPlace, PreparedSpan, RenameNext, RenameParams, RenameRequest, Span, Trigger,
};
use mcpls_core::edits::{
    action_at, changed_the_tree, select_action, ApplyConfig, ApplySummary, InboundEdits, ToolKind,
};
use mcpls_core::encoding::PositionEncoding;
use mcpls_core::error::Error;
use mcpls_core::inbound::{
    apply_inbound_edit, first_seen, step, InboundNext, WindowAction, WindowEvent, WindowState,
};
use mcpls_core::plan::{
    self, DocumentChangeOperation, EditPlan, Operation, ResourceOp, TextDocumentEdit,
    WorkspaceEdit,
};
use mcpls_core::reply::DiagnosticSeverity;
use mcpls_core::shown_edits::{
    convert_code_action, resource_operations_from_plan, CodeAction, CodeActionOrCommand, Command,
    EncodingCtx, LspCodeAction, ResourceOperation,
};

const TABS: FormatOptions = FormatOptions {
    tab_size: 4,
    insert_spaces: false,
};

fn to(new_name: &str) -> RenameParams {
    RenameParams {
        line: 3,
        character: 7,
        new_name: new_name.to_string(),
    }
}

fn text_of(error: &Error) -> &str {
    match error {
        Error::InvalidToolParams(text) | Error::ApplyRefused(text) => text,
        Error::ApplyDisabled { config_key, .. } => config_key,
        other => panic!("unexpected error: {other:?}"),
    }
}

#[test]
fn test_validate_rename_params_rejects_oversized_new_name() {
    let new_name = "a".repeat(MAX_NEW_NAME_LENGTH + 1);
    let result = validate_rename_params(&new_name);
    assert!(matches!(result, Err(Error::InvalidToolParams(_))));
}

#[test]
fn test_validate_rename_params_accepts_name_at_exact_limit() {
    let new_name = "a".repeat(MAX_NEW_NAME_LENGTH);
    assert!(validate_rename_params(&new_name).is_ok());
}

#[test]
fn test_validate_rename_params_accepts_typical_identifier() {
    assert!(validate_rename_params("my_variable").is_ok());
}

#[test]
fn test_validate_rename_params_accepts_empty_string() {
    assert!(validate_rename_params("").is_ok());
}

#[test]
fn a_new_name_is_measured_in_bytes() {
    let Err(error) = validate_rename_params(&"é".repeat(501)) else {
        panic!("1002 bytes are too many");
    };
    assert_eq!(text_of(&error), "new_name too long: 1002 bytes (max 1000)");
    assert!(validate_rename_params(&"é".repeat(500)).is_ok());
}

fn params(
    start_line: u32,
    start_character: u32,
    end_line: u32,
    end_character: u32,
    kind_filter: Option<&str>,
) -> CodeActionParams {
    CodeActionParams {
        start_line,
        start_character,
        end_line,
        end_character,
        kind_filter: kind_filter.map(str::to_string),
    }
}

fn list(params: &CodeActionParams) -> CodeActionsNext {
    handle_code_actions(params, ready("file:///tmp/test.rs"), None, &ctx())
}

fn range_of(line: u32, start: u32, end: u32) -> Range {
    Range {
        start: Position { line, character: start },
        end: Position { line, character: end },
    }
}

fn ready(uri: &str) -> Option<Result<PreparedSpan, Error>> {
    Some(Ok(PreparedSpan { uri: uri.to_string(), range: range_of(0, 0, 4) }))
}

fn open(uri: &str) -> Option<Result<String, Error>> {
    Some(Ok(uri.to_string()))
}

fn place() -> Option<Result<PreparedPlace, Error>> {
    Some(Ok(PreparedPlace {
        uri: "file:///w/a.rs".to_string(),
        position: Position { line: 0, character: 6 },
    }))
}

fn ctx() -> EncodingCtx {
    EncodingCtx { encoding: PositionEncoding::Utf16, texts: vec![] }
}

#[test]
fn test_handle_code_actions_invalid_kind() {
    let next = list(&params(1, 1, 1, 10, Some("invalid_kind")));
    assert!(matches!(
        next,
        CodeActionsNext::Fail(Error::InvalidToolParams(_))
    ));
}

#[test]
fn test_handle_code_actions_valid_kind_quickfix() {
    assert!(matches!(
        list(&params(1, 1, 1, 10, Some("quickfix"))),
        CodeActionsNext::Request(_)
    ));
}

#[test]
fn test_handle_code_actions_valid_kind_refactor() {
    assert!(matches!(
        list(&params(1, 1, 1, 10, Some("refactor"))),
        CodeActionsNext::Request(_)
    ));
}

#[test]
fn test_handle_code_actions_valid_kind_refactor_extract() {
    assert!(matches!(
        list(&params(1, 1, 1, 10, Some("refactor.extract"))),
        CodeActionsNext::Request(_)
    ));
}

#[test]
fn test_handle_code_actions_valid_kind_source() {
    assert!(matches!(
        list(&params(1, 1, 1, 10, Some("source.organizeImports"))),
        CodeActionsNext::Request(_)
    ));
}

#[test]
fn test_handle_code_actions_invalid_range_zero() {
    assert!(matches!(
        list(&params(0, 1, 1, 10, None)),
        CodeActionsNext::Fail(Error::InvalidToolParams(_))
    ));
}

#[test]
fn test_handle_code_actions_invalid_range_order() {
    assert!(matches!(
        list(&params(10, 5, 5, 1, None)),
        CodeActionsNext::Fail(Error::InvalidToolParams(_))
    ));
}

#[test]
fn test_handle_code_actions_empty_range() {
    assert!(matches!(
        list(&params(1, 5, 1, 5, None)),
        CodeActionsNext::Request(_)
    ));
}

#[test]
fn every_wrong_parameter_has_its_message() {
    let message = |s, sc, e, ec, kind| {
        let Err(error) = validate_code_action_params(s, sc, e, ec, kind) else {
            panic!("the parameters are wrong");
        };
        text_of(&error).to_string()
    };
    assert_eq!(
        message(1, 1, 1, 1, Some("x")),
        "Invalid kind_filter: 'x'. Valid values: [\"quickfix\", \"refactor\", \
         \"refactor.extract\", \"refactor.inline\", \"refactor.rewrite\", \"source\", \
         \"source.organizeImports\"]"
    );
    assert_eq!(
        message(1, 0, 1, 1, None),
        "Line and character positions must be >= 1"
    );
    assert_eq!(
        message(1, 1, 1, MAX_POSITION_VALUE + 1, None),
        "Position values must be <= 1000000"
    );
    assert_eq!(
        message(1, 1, MAX_RANGE_LINES + 2, 1, None),
        "Range size must be <= 10000 lines"
    );
    assert_eq!(
        message(2, 1, 1, 9, None),
        "Start position must be before or equal to end position"
    );
    assert!(validate_code_action_params(1, 1, MAX_RANGE_LINES + 1, 1, Some("QuickFix")).is_ok());
}

fn at(line: u32, character: u32) -> diagnostics::Position {
    diagnostics::Position { line, character }
}

fn diagnostic(
    line: u32,
    severity: diagnostics::DiagnosticSeverity,
    message: &str,
    code: Option<diagnostics::DiagnosticCode>,
) -> diagnostics::Diagnostic {
    diagnostics::Diagnostic {
        range: diagnostics::Range { start: at(line, 0), end: at(line, 5) },
        severity: Some(severity),
        code,
        source: None,
        message: message.to_string(),
    }
}

fn action(title: &str) -> LspCodeAction {
    LspCodeAction {
        title: title.to_string(),
        kind: None,
        diagnostics: None,
        edit: None,
        command: None,
        is_preferred: None,
        data: None,
    }
}

fn text_edit(line: u32, start: u32, end: u32, new_text: &str) -> plan::TextEdit {
    plan::TextEdit {
        range: diagnostics::Range { start: at(line, start), end: at(line, end) },
        new_text: new_text.to_string(),
    }
}

fn edit_of(uri: &str, edits: Vec<plan::TextEdit>) -> WorkspaceEdit {
    WorkspaceEdit {
        changes: Some(vec![(uri.to_string(), edits)]),
        document_changes: None,
    }
}

#[test]
fn test_convert_code_action_minimal() {
    let result = convert_code_action(&action("Fix issue"), &ctx(), "file:///test.rs");
    assert_eq!(result.title, "Fix issue");
    assert!(result.kind.is_none());
    assert!(result.diagnostics.is_empty());
    assert!(result.edit.is_none());
    assert!(result.command.is_none());
    assert!(!result.is_preferred);
}

#[test]
fn test_convert_code_action_with_diagnostics_all_severities() {
    let lsp_action = LspCodeAction {
        kind: Some("quickfix".to_string()),
        diagnostics: Some(vec![
            diagnostic(0, diagnostics::DiagnosticSeverity::Error, "Error message", Some(diagnostics::DiagnosticCode::Number(1))),
            diagnostic(
                1,
                diagnostics::DiagnosticSeverity::Warning,
                "Warning message",
                Some(diagnostics::DiagnosticCode::Text("W001".to_string())),
            ),
            diagnostic(2, diagnostics::DiagnosticSeverity::Information, "Info message", None),
            diagnostic(3, diagnostics::DiagnosticSeverity::Hint, "Hint message", None),
        ]),
        ..action("Fix all issues")
    };

    let result = convert_code_action(&lsp_action, &ctx(), "file:///test.rs");
    assert_eq!(result.diagnostics.len(), 4);
    assert!(matches!(
        result.diagnostics[0].severity,
        DiagnosticSeverity::Error
    ));
    assert!(matches!(
        result.diagnostics[1].severity,
        DiagnosticSeverity::Warning
    ));
    assert!(matches!(
        result.diagnostics[2].severity,
        DiagnosticSeverity::Information
    ));
    assert!(matches!(
        result.diagnostics[3].severity,
        DiagnosticSeverity::Hint
    ));
    assert_eq!(result.diagnostics[0].code, Some("1".to_string()));
    assert_eq!(result.diagnostics[1].code, Some("W001".to_string()));
}

#[test]
fn test_convert_code_action_with_workspace_edit() {
    let lsp_action = LspCodeAction {
        kind: Some("quickfix".to_string()),
        edit: Some(edit_of("file:///test.rs", vec![text_edit(0, 0, 5, "fixed")])),
        is_preferred: Some(true),
        ..action("Apply fix")
    };

    let result = convert_code_action(&lsp_action, &ctx(), "file:///test.rs");
    assert!(result.edit.is_some());
    let edit = result.edit.unwrap();
    assert_eq!(edit.changes.len(), 1);
    assert_eq!(edit.changes[0].uri, "file:///test.rs");
    assert_eq!(edit.changes[0].edits.len(), 1);
    assert_eq!(edit.changes[0].edits[0].new_text, "fixed");
    assert!(result.is_preferred);
}

#[test]
fn test_convert_code_action_with_command() {
    let lsp_action = LspCodeAction {
        kind: Some("refactor".to_string()),
        command: Some(Command {
            title: "Execute refactor".to_string(),
            command: "refactor.extract".to_string(),
            arguments: Some(vec!["\"arg1\"".to_string(), "42".to_string()]),
        }),
        ..action("Run command")
    };

    let result = convert_code_action(&lsp_action, &ctx(), "file:///test.rs");
    assert!(result.command.is_some());
    let cmd = result.command.unwrap();
    assert_eq!(cmd.title, "Execute refactor");
    assert_eq!(cmd.command, "refactor.extract");
    assert_eq!(cmd.arguments.len(), 2);
}

#[test]
fn test_convert_code_action_with_document_changes_only() {
    let lsp_action = LspCodeAction {
        kind: Some("quickfix".to_string()),
        edit: Some(WorkspaceEdit {
            changes: None,
            document_changes: Some(plan::DocumentChanges::Edits(vec![TextDocumentEdit {
                uri: "file:///test.rs".to_string(),
                version: None,
                edits: vec![text_edit(0, 0, 5, "fixed")],
            }])),
        }),
        ..action("Fix issue")
    };

    let result = convert_code_action(&lsp_action, &ctx(), "file:///test.rs");
    assert!(
        result.edit.is_some(),
        "code action with document_changes-only edit must not preview as empty"
    );
    let edit = result.edit.unwrap();
    assert_eq!(edit.changes.len(), 1);
    assert_eq!(edit.changes[0].uri, "file:///test.rs");
    assert_eq!(edit.changes[0].edits.len(), 1);
    assert_eq!(edit.changes[0].edits[0].new_text, "fixed");
}

#[test]
fn an_edit_that_cannot_be_planned_is_shown_as_none() {
    let lsp_action = LspCodeAction {
        edit: Some(edit_of(
            "file:///test.rs",
            vec![text_edit(0, 0, 5, "a"), text_edit(0, 2, 7, "b")],
        )),
        ..action("Overlapping")
    };
    assert!(convert_code_action(&lsp_action, &ctx(), "file:///test.rs")
        .edit
        .is_none());
}

#[test]
fn ranges_are_shown_against_the_text_that_is_known() {
    let known = EncodingCtx {
        encoding: PositionEncoding::Utf8,
        texts: vec![("file:///test.rs".to_string(), "\u{1f600}broken".to_string())],
    };
    let lsp_action = LspCodeAction {
        edit: Some(edit_of("file:///test.rs", vec![text_edit(0, 4, 5, "x")])),
        ..action("Apply fix")
    };
    let edit = convert_code_action(&lsp_action, &known, "file:///other.rs")
        .edit
        .unwrap();
    let range = edit.changes[0].edits[0].range;
    assert_eq!((range.start.line, range.start.character), (1, 3));
    assert_eq!(range.end.character, 4);
}

#[test]
fn test_preview_reports_file_rename_operations() {
    let plan = EditPlan::from_workspace_edit(WorkspaceEdit {
        changes: None,
        document_changes: Some(plan::DocumentChanges::Operations(vec![
            DocumentChangeOperation::Op(ResourceOp::Rename {
                old_uri: "file:///w/foo.rs".to_string(),
                new_uri: "file:///w/bar.rs".to_string(),
                options: None,
            }),
        ])),
    })
    .expect("plan builds");
    let ops = resource_operations_from_plan(&plan);

    assert_eq!(ops.len(), 1);
    assert_eq!(ops[0].kind, "rename");
    assert_eq!(ops[0].uri, "file:///w/foo.rs");
    assert_eq!(ops[0].new_uri.as_deref(), Some("file:///w/bar.rs"));
}

fn stub_action(index: usize, title: &str) -> CodeAction {
    CodeAction {
        title: title.to_string(),
        kind: None,
        diagnostics: Vec::new(),
        edit: None,
        command: None,
        is_preferred: false,
        index,
    }
}

#[test]
fn test_code_action_selector_matches_by_index() {
    let actions = vec![
        stub_action(0, "Add missing import"),
        stub_action(1, "Extract into function"),
    ];
    let chosen = select_action(&actions, &CodeActionSelector::Index(1))
        .expect("index 1 selects the second action");
    assert_eq!(chosen.title, "Extract into function");
}

#[test]
fn test_code_action_selector_matches_by_exact_title() {
    let actions = vec![
        stub_action(0, "Add missing import"),
        stub_action(1, "Extract into function"),
    ];
    let chosen = select_action(
        &actions,
        &CodeActionSelector::Title("Add missing import".to_string()),
    )
    .expect("exact title selects");
    assert_eq!(chosen.index, 0);
}

#[test]
fn test_code_action_selector_rejects_an_ambiguous_title() {
    let actions = vec![
        stub_action(0, "Fill match arms"),
        stub_action(1, "Fill match arms"),
    ];
    let error = select_action(
        &actions,
        &CodeActionSelector::Title("Fill match arms".to_string()),
    )
    .expect_err("two actions share the title");
    assert!(text_of(&error).contains("ambiguous"));
}

#[test]
fn test_code_action_selector_rejects_an_out_of_range_index() {
    let actions = vec![stub_action(0, "Only one")];
    assert!(select_action(&actions, &CodeActionSelector::Index(7)).is_err());
}

#[test]
fn test_selector_from_params_requires_at_least_one_field() {
    assert!(matches!(
        selector_from_params(Some(2), None).expect("index alone is valid"),
        CodeActionSelector::Index(2)
    ));
    assert!(matches!(
        selector_from_params(None, Some("Fill".to_string())).expect("title alone is valid"),
        CodeActionSelector::Title(_)
    ));
    assert!(matches!(
        selector_from_params(Some(0), Some("Fill".to_string()))
            .expect("both together confirm the index"),
        CodeActionSelector::ConfirmedIndex { index: 0, .. }
    ));
    assert!(selector_from_params(None, None).is_err());
}

#[test]
fn test_a_confirmed_index_is_refused_when_the_title_no_longer_matches() {
    let actions = vec![
        stub_action(0, "Add missing import"),
        stub_action(1, "Remove unused import"),
    ];

    let chosen = select_action(
        &actions,
        &CodeActionSelector::ConfirmedIndex {
            index: 1,
            title: "Remove unused import".to_string(),
        },
    )
    .expect("the title still matches the position");
    assert_eq!(chosen.index, 1);

    let error = select_action(
        &actions,
        &CodeActionSelector::ConfirmedIndex {
            index: 1,
            title: "Extract into function".to_string(),
        },
    )
    .expect_err("index 1 is a different action now");
    assert!(
        text_of(&error).contains("Remove unused import"),
        "the error says what is actually there: {error:?}"
    );
}

#[test]
fn test_code_action_selector_rejects_a_title_matching_nothing() {
    let actions = vec![stub_action(0, "Only one")];
    let error = select_action(
        &actions,
        &CodeActionSelector::Title("Not present".to_string()),
    )
    .expect_err("no action has this title");
    assert!(text_of(&error).contains("Not present"));
}

#[test]
fn every_failed_selection_has_its_message() {
    let actions = vec![stub_action(0, "Say \"hi\""), stub_action(1, "Say \"hi\"")];
    let message = |selector: CodeActionSelector| {
        text_of(&select_action(&actions, &selector).unwrap_err()).to_string()
    };
    assert_eq!(
        message(CodeActionSelector::Index(7)),
        "action index 7 is out of range: 2 actions available"
    );
    assert_eq!(
        message(CodeActionSelector::Title("Say \"hi\"".to_string())),
        "title \"Say \\\"hi\\\"\" is ambiguous: more than one action shares it, select by \
         index instead"
    );
    assert_eq!(
        message(CodeActionSelector::Title("Go".to_string())),
        "no code action titled \"Go\""
    );
    assert_eq!(
        message(CodeActionSelector::ConfirmedIndex { index: 1, title: "Go".to_string() }),
        "action index 1 is now \"Say \\\"hi\\\"\", not \"Go\": the list changed since \
         get_code_actions produced it, so read it again"
    );
    assert!(action_at(&actions, 1).is_ok());
    assert!(action_at(&actions, 2).is_err());
}

#[test]
fn a_selector_comes_to_one_choice() {
    let titles = vec!["a", "b", "a"];
    assert_eq!(
        choose_title(&titles, &CodeActionSelector::Index(1)),
        Choice::Chosen(1)
    );
    assert_eq!(
        choose_title(&titles, &CodeActionSelector::Title("b".to_string())),
        Choice::Chosen(1)
    );
    assert_eq!(
        choose_title(&titles, &CodeActionSelector::Title("a".to_string())),
        Choice::Ambiguous
    );
    assert_eq!(
        choose_title(&titles, &CodeActionSelector::Title("c".to_string())),
        Choice::NotFound
    );
}

#[test]
fn test_applier_for_refuses_a_tool_its_config_forbids() {
    let config = ApplyConfig { rename: true, ..ApplyConfig::none() };

    assert!(config
        .applier_for(ToolKind::Rename, "rename_symbol", "apply.rename")
        .is_ok());

    let error = config
        .applier_for(
            ToolKind::FormatDocument,
            "format_document",
            "apply.format_document",
        )
        .expect_err("format_document is not permitted");
    assert!(
        text_of(&error).contains("apply.format_document"),
        "the error names the key that would permit it: {error:?}"
    );
}

#[test]
fn test_a_default_translator_permits_no_writes() {
    let config = ApplyConfig::none();
    for (tool, name, key) in [
        (ToolKind::Rename, "rename_symbol", "apply.rename"),
        (
            ToolKind::FormatDocument,
            "format_document",
            "apply.format_document",
        ),
        (
            ToolKind::CodeActions,
            "apply_code_action",
            "apply.code_actions",
        ),
    ] {
        assert!(
            config.applier_for(tool, name, key).is_err(),
            "{name} must be refused with no [apply] table"
        );
    }
}

fn all() -> ApplyConfig {
    ApplyConfig { rename: true, format_document: true, code_actions: true }
}

fn wrote(paths: &[&str]) -> ApplySummary {
    ApplySummary {
        files_changed: paths.iter().map(|p| p.to_string()).collect(),
        resource_operations: vec![],
    }
}

#[test]
fn test_rename_with_apply_is_refused_when_config_forbids_it() {
    let next = handle_rename(&ApplyConfig::none(), &to("new"), true, None, None, &ctx(), None);
    let RenameNext::Fail(error) = next else {
        panic!("apply must be refused");
    };
    assert!(
        text_of(&error).contains("apply.rename"),
        "the error names the config key that would permit it: {error:?}"
    );
}

#[test]
fn test_format_with_apply_is_refused_when_config_forbids_it() {
    let next = handle_format_document(&ApplyConfig::none(), TABS, true, None, None, &ctx(), None);
    let FormatNext::Fail(error) = next else {
        panic!("apply must be refused");
    };
    assert!(
        text_of(&error).contains("apply.format_document"),
        "the error names the config key"
    );
}

#[test]
fn test_format_with_apply_and_no_edits_reports_not_applied() {
    let uri = "file:///w/a.rs";
    let answer = Some(Ok(Some(vec![])));
    let next = handle_format_document(&all(), TABS, true, open(uri), answer, &ctx(), None);
    let FormatNext::Done(result) = next else {
        panic!("no edits should not error");
    };
    assert!(
        !result.applied,
        "no edits were returned, nothing was written, applied must be false"
    );
    assert!(result.edits.is_empty());
}

#[test]
fn a_rename_is_requested_planned_written_and_reported() {
    let config = all();
    let run = |response, applied| {
        handle_rename(&config, &to("fresh"), true, place(), response, &ctx(), applied)
    };
    let edit = || edit_of("file:///w/a.rs", vec![text_edit(0, 3, 6, "new")]);

    let RenameNext::Request(asked) = run(None, None) else {
        panic!("the server is asked");
    };
    assert_eq!(
        asked,
        RenameRequest {
            uri: "file:///w/a.rs".to_string(),
            position: Position { line: 0, character: 6 },
            new_name: "fresh".to_string(),
        }
    );
    let RenameNext::Apply(plan) = run(Some(Ok(Some(edit()))), None) else {
        panic!("the plan is written");
    };
    assert!(matches!(plan.operations()[0], Operation::Edit { .. }));
    let RenameNext::Done(result) = run(Some(Ok(Some(edit()))), Some(Ok(wrote(&["/w/a.rs"]))))
    else {
        panic!("the rename is done");
    };
    assert!(result.applied);
    assert_eq!(result.files_written, vec!["/w/a.rs"]);
    assert_eq!(result.changes[0].edits[0].new_text, "new");
    assert_eq!(result.changes[0].edits[0].range.start.character, 4);

    let RenameNext::Fail(error) = run(
        Some(Ok(Some(edit()))),
        Some(Err(Error::ApplyRefused("no".to_string()))),
    ) else {
        panic!("a failed write fails the rename");
    };
    assert_eq!(text_of(&error), "no");
    let RenameNext::Done(result) = run(Some(Ok(None)), None) else {
        panic!("nothing to rename");
    };
    assert!(result.changes.is_empty() && !result.applied);
}

#[test]
fn a_preview_is_never_written() {
    let edit = edit_of("file:///w/a.rs", vec![text_edit(0, 3, 6, "new")]);
    let next = handle_rename(
        &ApplyConfig::none(),
        &to("fresh"),
        false,
        place(),
        Some(Ok(Some(edit))),
        &ctx(),
        None,
    );
    let RenameNext::Done(result) = next else {
        panic!("a preview needs no permission");
    };
    assert!(!result.applied && result.files_written.is_empty());
    assert_eq!(result.changes.len(), 1);
}

#[test]
fn formatting_plans_a_single_document() {
    let uri = "file:///w/a.rs";
    let edits = || Some(Ok(Some(vec![text_edit(0, 0, 1, "x"), text_edit(2, 0, 1, "y")])));
    let FormatNext::Apply(plan) =
        handle_format_document(&all(), TABS, true, open(uri), edits(), &ctx(), None)
    else {
        panic!("the edits are written");
    };
    let [Operation::Edit { uri: target, version: None, edits: planned }] =
        plan.operations().as_slice()
    else {
        panic!("one document is edited");
    };
    assert_eq!(target, uri);
    assert_eq!(planned[0].new_text, "y", "from the bottom");
    let written = Some(Ok(wrote(&["/w/a.rs"])));
    let FormatNext::Done(result) =
        handle_format_document(&all(), TABS, true, open(uri), edits(), &ctx(), written)
    else {
        panic!("formatting is done");
    };
    assert!(result.applied);
    assert_eq!(result.edits[0].new_text, "x", "as the server listed them");
}

fn progress() -> ApplyProgress {
    ApplyProgress {
        prepared: ready("file:///w/a.rs"),
        response: None,
        resolved: None,
        applied: None,
        executed: None,
        inbound: vec![],
    }
}

fn command_only() -> Vec<CodeActionOrCommand> {
    vec![CodeActionOrCommand::CodeAction(LspCodeAction {
        command: Some(Command {
            title: "Extract into function".to_string(),
            command: "test.extract".to_string(),
            arguments: Some(vec![]),
        }),
        ..action("Extract into function")
    })]
}

fn apply(config: &ApplyConfig, index: usize, progress: ApplyProgress) -> ApplyNext {
    handle_apply_code_action(config, &params(1, 1, 1, 5, None), Some(index), None, progress)
}

#[test]
fn test_apply_code_action_is_refused_when_config_forbids_it() {
    let ApplyNext::Fail(error) = apply(&ApplyConfig::none(), 0, progress()) else {
        panic!("apply must be refused");
    };
    assert!(
        text_of(&error).contains("apply.code_actions"),
        "the error names the config key"
    );
}

#[test]
fn test_command_driven_action_applies_the_edit_the_server_sends_back() {
    let asked = || ApplyProgress { response: Some(Ok(Some(command_only()))), ..progress() };
    let ApplyNext::Execute(command) = apply(&all(), 0, asked()) else {
        panic!("the command is run");
    };
    assert_eq!(command.command, "test.extract");
    let ApplyNext::Done(result) = apply(
        &all(),
        0,
        ApplyProgress {
            executed: Some(Ok(())),
            inbound: vec![wrote(&["/w/target.rs"])],
            ..asked()
        },
    ) else {
        panic!("the action is applied");
    };
    assert!(result.applied);
    assert_eq!(result.files_written, vec!["/w/target.rs"]);
    assert_eq!(result.executed_command.as_deref(), Some("test.extract"));
}

#[test]
fn test_command_driven_action_applies_every_edit_the_server_sends() {
    let ApplyNext::Done(result) = apply(
        &all(),
        0,
        ApplyProgress {
            response: Some(Ok(Some(command_only()))),
            executed: Some(Ok(())),
            inbound: vec![wrote(&["/w/a.rs"]), wrote(&[]), wrote(&["/w/b.rs"])],
            ..progress()
        },
    ) else {
        panic!("the action is applied");
    };
    assert_eq!(result.files_written, vec!["/w/a.rs", "/w/b.rs"]);
}

#[test]
fn test_a_rename_only_edit_reports_applied() {
    let operation = ResourceOperation {
        kind: "rename".to_string(),
        uri: "file:///w/a.rs".to_string(),
        new_uri: Some("file:///w/b.rs".to_string()),
    };
    let summary = ApplySummary {
        files_changed: vec![],
        resource_operations: vec![operation.clone()],
    };
    assert!(changed_the_tree(&summary));
    let listing = vec![CodeActionOrCommand::CodeAction(LspCodeAction {
        edit: Some(edit_of("file:///w/a.rs", vec![])),
        ..action("Move")
    })];
    let ApplyNext::Done(result) = apply(
        &all(),
        0,
        ApplyProgress {
            response: Some(Ok(Some(listing))),
            applied: Some(Ok(summary)),
            ..progress()
        },
    ) else {
        panic!("the action is applied");
    };
    assert!(result.applied);
    assert!(result.files_written.is_empty());
    assert_eq!(result.resource_operations, vec![operation]);
}

#[test]
fn an_edit_is_written_before_the_command_is_run() {
    let listing = || {
        Some(Ok(Some(vec![CodeActionOrCommand::CodeAction(LspCodeAction {
            edit: Some(edit_of("file:///w/a.rs", vec![text_edit(0, 0, 1, "x")])),
            command: Some(Command {
                title: "After".to_string(),
                command: "after".to_string(),
                arguments: None,
            }),
            ..action("Both")
        })])))
    };
    assert!(matches!(
        apply(&all(), 0, ApplyProgress { response: listing(), ..progress() }),
        ApplyNext::Apply(_)
    ));
    assert!(matches!(
        apply(
            &all(),
            0,
            ApplyProgress {
                response: listing(),
                applied: Some(Ok(wrote(&["/w/a.rs"]))),
                ..progress()
            }
        ),
        ApplyNext::Execute(_)
    ));
}

#[test]
fn an_unresolved_action_is_resolved_where_the_server_offers_to() {
    let listing = |data: Option<&str>| {
        Some(Ok(Some(vec![
            CodeActionOrCommand::Command(Command {
                title: "Bare".to_string(),
                command: "bare".to_string(),
                arguments: None,
            }),
            CodeActionOrCommand::CodeAction(LspCodeAction {
                data: data.map(str::to_string),
                ..action("Lazy")
            }),
        ])))
    };
    assert!(matches!(
        apply(&all(), 1, ApplyProgress { response: listing(Some("{}")), ..progress() }),
        ApplyNext::Resolve(1)
    ));
    let resolved = LspCodeAction {
        edit: Some(edit_of("file:///w/a.rs", vec![text_edit(0, 0, 1, "x")])),
        ..action("Lazy")
    };
    assert!(matches!(
        apply(
            &all(),
            1,
            ApplyProgress {
                response: listing(Some("{}")),
                resolved: Some(Ok(resolved)),
                ..progress()
            }
        ),
        ApplyNext::Apply(_)
    ));
    let ApplyNext::Fail(error) =
        apply(&all(), 1, ApplyProgress { response: listing(None), ..progress() })
    else {
        panic!("an action that does nothing is refused");
    };
    assert_eq!(
        text_of(&error),
        "code action \"Lazy\" resolved to neither an edit nor a command"
    );
    assert_eq!(error, does_nothing_error("\"Lazy\""));
    assert!(matches!(
        apply(&all(), 0, ApplyProgress { response: listing(None), ..progress() }),
        ApplyNext::Execute(_)
    ));
}

#[test]
fn a_listed_action_is_applied_under_its_number() {
    let listing = || {
        vec![
            CodeActionOrCommand::Command(Command {
                title: "Bare".to_string(),
                command: "bare".to_string(),
                arguments: None,
            }),
            CodeActionOrCommand::CodeAction(LspCodeAction {
                edit: Some(edit_of("file:///w/a.rs", vec![text_edit(0, 0, 1, "x")])),
                ..action("Edit")
            }),
        ]
    };
    let range = params(1, 1, 1, 5, None);
    let CodeActionsNext::Done(result) =
        handle_code_actions(&range, ready("file:///w/a.rs"), Some(Ok(Some(listing()))), &ctx())
    else {
        panic!("the actions are listed");
    };
    assert_eq!(result.actions[0].command.as_ref().unwrap().command, "bare");
    assert_eq!(result.actions[1].index, 1);
    assert_eq!(result.actions[1].title, "Edit");
    let chosen = ApplyProgress { response: Some(Ok(Some(listing()))), ..progress() };
    assert!(matches!(apply(&all(), 1, chosen), ApplyNext::Apply(_)));
}

#[test]
fn what_several_applies_wrote_adds_up() {
    let mut written = InboundEdits::new();
    written.absorb(&wrote(&[]));
    assert!(!written.changed_the_tree);
    written.absorb(&wrote(&["a"]));
    written.absorb(&wrote(&["b", "c"]));
    assert!(written.changed_the_tree);
    assert_eq!(written.files_written, vec!["a", "b", "c"]);
}

#[test]
fn an_inbound_edit_is_answered_with_whether_it_was_applied() {
    let mut written = InboundEdits::new();
    let edit = edit_of("file:///w/a.rs", vec![text_edit(0, 0, 1, "x")]);
    assert!(matches!(
        apply_inbound_edit(&edit, None, &mut written),
        InboundNext::Apply(_)
    ));
    assert!(matches!(
        apply_inbound_edit(&edit, Some(Ok(wrote(&["/w/a.rs"]))), &mut written),
        InboundNext::Answer(true)
    ));
    assert_eq!(written.files_written, vec!["/w/a.rs"]);
    let refused = Some(Err(Error::ApplyRefused("no".to_string())));
    assert!(matches!(
        apply_inbound_edit(&edit, refused, &mut written),
        InboundNext::Answer(false)
    ));
    let overlapping = edit_of(
        "file:///w/a.rs",
        vec![text_edit(0, 0, 5, "a"), text_edit(0, 2, 7, "b")],
    );
    assert!(matches!(
        apply_inbound_edit(&overlapping, None, &mut written),
        InboundNext::Answer(false)
    ));
    assert_eq!(written.files_written.len(), 1);
}

#[test]
fn test_inbound_apply_edit_after_the_command_is_refused() {
    let mut state = WindowState::Open;
    let mut seen = vec![];
    for event in [
        first_seen(true, true, true),
        WindowEvent::Answered,
        WindowEvent::Edit,
        WindowEvent::Idle,
        WindowEvent::Edit,
    ] {
        let (next, action) = step(state, event);
        state = next;
        seen.push(action);
    }
    assert_eq!(
        seen,
        vec![
            WindowAction::Apply,
            WindowAction::CloseSink,
            WindowAction::Apply,
            WindowAction::ClearSink,
            WindowAction::Refuse,
        ]
    );
    assert_eq!(state, WindowState::Closed);
}

#[test]
fn a_window_whose_sink_is_gone_waits_for_its_command() {
    let (state, action) = step(WindowState::Open, first_seen(false, false, false));
    assert_eq!((state, action), (WindowState::Waiting, WindowAction::Wait));
    let (state, action) = step(state, first_seen(false, false, true));
    assert_eq!((state, action), (WindowState::Draining, WindowAction::CloseSink));
}

#[test]
fn applying_asks_for_the_list_that_was_shown() {
    let range = params(2, 1, 2, 9, Some("quickfix"));
    let CodeActionsNext::Request(listed) =
        handle_code_actions(&range, ready("file:///w/a.rs"), None, &ctx())
    else {
        panic!("the server is asked first");
    };
    let ApplyNext::Request(asked) =
        handle_apply_code_action(&all(), &range, Some(0), None, progress())
    else {
        panic!("the server is asked first");
    };
    let expected = CodeActionRequest {
        uri: "file:///w/a.rs".to_string(),
        range: range_of(0, 0, 4),
        diagnostics: vec![],
        only: Some(vec!["quickfix".to_string()]),
        trigger: Some(Trigger::Invoked),
    };
    assert_eq!(listed, expected);
    assert_eq!(asked, expected);

    let every = params(2, 1, 2, 9, None);
    let CodeActionsNext::Request(listed) =
        handle_code_actions(&every, ready("file:///w/a.rs"), None, &ctx())
    else {
        panic!("the server is asked first");
    };
    assert_eq!(listed.only, None);

    let next =
        handle_format_document(&all(), TABS, false, open("file:///w/a.rs"), None, &ctx(), None);
    let FormatNext::Request(request) = next else {
        panic!("the server is asked first");
    };
    let expected = FormatRequest { uri: "file:///w/a.rs".to_string(), options: TABS };
    assert_eq!(request, expected);
}

#[test]
fn a_document_is_opened_and_its_server_looked_at_before_it_is_asked() {
    let gate = |tool, capability: &str| Gate { tool, capability: capability.to_string() };
    let next = handle_rename(&all(), &to("fresh"), true, None, None, &ctx(), None);
    let RenameNext::Prepare(asked, place) = next else {
        panic!("the document is opened first");
    };
    assert_eq!(asked, gate(ToolKind::Rename, "renameProvider"));
    assert_eq!(place, Place { line: to("fresh").line, character: to("fresh").character });

    let next = handle_format_document(&all(), TABS, true, None, None, &ctx(), None);
    let FormatNext::Prepare(asked) = next else {
        panic!("the document is opened first");
    };
    assert_eq!(asked, gate(ToolKind::FormatDocument, "documentFormattingProvider"));

    let range = params(2, 1, 3, 9, None);
    let span = Span {
        start: Place { line: 2, character: 1 },
        end: Place { line: 3, character: 9 },
    };
    let CodeActionsNext::Prepare(asked, listed) = handle_code_actions(&range, None, None, &ctx())
    else {
        panic!("the document is opened first");
    };
    assert_eq!((asked, listed), (gate(ToolKind::CodeActions, "codeActionProvider"), span));
    let unprepared = ApplyProgress { prepared: None, ..progress() };
    let ApplyNext::Prepare(asked, applied) =
        handle_apply_code_action(&all(), &range, Some(0), None, unprepared)
    else {
        panic!("the document is opened first");
    };
    assert_eq!((asked, applied), (gate(ToolKind::CodeActions, "codeActionProvider"), span));
}

#[test]
fn a_server_that_does_not_offer_it_fails_the_request() {
    let refused = || Error::ApplyRefused("not offered".to_string());
    let next = handle_rename(&all(), &to("x"), false, Some(Err(refused())), None, &ctx(), None);
    assert!(matches!(next, RenameNext::Fail(error) if text_of(&error) == "not offered"));
    let next = handle_format_document(&all(), TABS, false, Some(Err(refused())), None, &ctx(), None);
    assert!(matches!(next, FormatNext::Fail(error) if text_of(&error) == "not offered"));
    let next = handle_code_actions(&params(1, 1, 1, 5, None), Some(Err(refused())), None, &ctx());
    assert!(matches!(next, CodeActionsNext::Fail(error) if text_of(&error) == "not offered"));
    let failed = ApplyProgress { prepared: Some(Err(refused())), ..progress() };
    let next = apply(&all(), 0, failed);
    assert!(matches!(next, ApplyNext::Fail(error) if text_of(&error) == "not offered"));
}

#[test]
fn a_capability_is_offered_by_a_true_flag_or_by_options() {
    assert!(!offers(Announced::Nothing));
    assert!(!offers(Announced::Flag(false)));
    assert!(offers(Announced::Flag(true)));
    assert!(offers(Announced::Options));
}
