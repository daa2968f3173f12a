use mcpls_core::diagnostics::{Position, Range};
use mcpls_core::error::Error;
use mcpls_core::plan::{
    DeleteOptions, DocumentChangeOperation, DocumentChanges, EditPlan, Operation,
    OverwriteOptions, ResourceOp, TextDocumentEdit, TextEdit, WorkspaceEdit,
};

fn uri(path: &str) -> String {
    format!("file://{path}")
}

fn at(line: u32, character: u32) -> Position {
    Position { line, character }
}

fn edit(start_line: u32, end_line: u32, text: &str) -> TextEdit {
    TextEdit {
        range: Range { start: at(start_line, 0), end: at(end_line, 0) },
        new_text: text.to_string(),
    }
}

fn insert_at(line: u32, character: u32, text: &str) -> TextEdit {
    let point = at(line, character);
    TextEdit { range: Range { start: point, end: point }, new_text: text.to_string() }
}

fn document(path: &str, edits: Vec<TextEdit>) -> TextDocumentEdit {
    TextDocumentEdit { uri: uri(path), version: None, edits }
}

fn of_changes(path: &str, edits: Vec<TextEdit>) -> WorkspaceEdit {
    WorkspaceEdit { changes: Some(vec![(uri(path), edits)]), ..WorkspaceEdit::empty() }
}

fn of_operations(operations: Vec<DocumentChangeOperation>) -> WorkspaceEdit {
    WorkspaceEdit {
        document_changes: Some(DocumentChanges::Operations(operations)),
        ..WorkspaceEdit::empty()
    }
}

fn create(path: &str) -> DocumentChangeOperation {
    DocumentChangeOperation::Op(ResourceOp::Create { uri: uri(path), options: None })
}

#[test]
fn test_changes_map_becomes_one_edit_operation_per_file() {
    let plan = EditPlan::from_workspace_edit(of_changes("/w/a.rs", vec![edit(0, 0, "x")]))
        .expect("plan builds");
    assert_eq!(plan.operations().len(), 1);
    assert!(matches!(plan.operations()[0], Operation::Edit { .. }));
}

#[test]
fn test_document_changes_wins_when_both_shapes_are_present() {
    let plan = EditPlan::from_workspace_edit(WorkspaceEdit {
        changes: Some(vec![(uri("/w/legacy.rs"), vec![edit(0, 0, "legacy")])]),
        document_changes: Some(DocumentChanges::Edits(vec![document(
            "/w/modern.rs",
            vec![edit(0, 0, "modern")],
        )])),
    })
    .expect("plan builds");

    assert_eq!(
        plan.operations().len(),
        1,
        "applying both shapes would edit the same change twice"
    );
    let Operation::Edit { uri: target, .. } = &plan.operations()[0] else {
        panic!("expected an edit operation");
    };
    assert_eq!(target.as_str(), "file:///w/modern.rs");
}

#[test]
fn test_edits_within_a_file_sort_bottom_up() {
    let plan = EditPlan::from_workspace_edit(of_changes(
        "/w/a.rs",
        vec![edit(1, 1, "first"), edit(5, 5, "second")],
    ))
    .expect("plan builds");
    let Operation::Edit { edits, .. } = &plan.operations()[0] else {
        panic!("expected an edit operation");
    };
    assert_eq!(edits[0].new_text, "second", "highest line applies first");
    assert_eq!(edits[1].new_text, "first");
}

#[test]
fn test_inserts_at_one_position_apply_in_array_order() {
    let plan = EditPlan::from_workspace_edit(of_changes(
        "/w/a.rs",
        vec![insert_at(0, 0, "a"), insert_at(0, 0, "b")],
    ))
    .expect("plan builds");
    let Operation::Edit { edits, .. } = &plan.operations()[0] else {
        panic!("expected an edit operation");
    };
    // Spliced front to back into the same offset, the last one spliced ends up
    // first in the text, so "b" must be spliced before "a" for the document to
    // read "ab".
    assert_eq!(edits[0].new_text, "b");
    assert_eq!(edits[1].new_text, "a");
}

#[test]
fn test_overlapping_edits_are_refused() {
    let result = EditPlan::from_workspace_edit(of_changes(
        "/w/a.rs",
        vec![edit(1, 4, "a"), edit(2, 6, "b")],
    ));
    assert!(result.is_err(), "overlapping ranges must not be merged");
}

#[test]
fn test_operations_keep_their_array_order() {
    let plan = EditPlan::from_workspace_edit(of_operations(vec![
        create("/w/new.rs"),
        DocumentChangeOperation::Edit(TextDocumentEdit {
            uri: uri("/w/new.rs"),
            version: Some(3),
            edits: vec![edit(0, 0, "content")],
        }),
    ]))
    .expect("plan builds");
    assert!(matches!(plan.operations()[0], Operation::Create { .. }));
    assert!(matches!(
        plan.operations()[1],
        Operation::Edit { version: Some(3), .. }
    ));
}

#[test]
fn test_create_carries_its_ignore_if_exists_flag() {
    let plan = EditPlan::from_workspace_edit(of_operations(vec![DocumentChangeOperation::Op(
        ResourceOp::Create {
            uri: uri("/w/new.rs"),
            options: Some(OverwriteOptions { overwrite: None, ignore_if_exists: Some(true) }),
        },
    )]))
    .expect("plan builds");
    assert!(matches!(
        plan.operations()[0],
        Operation::Create { overwrite: false, ignore_if_exists: true, .. }
    ));
}

#[test]
fn test_two_entries_for_one_document_are_refused() {
    let entry = |text: &str| document("/w/a.rs", vec![edit(0, 0, text)]);

    let result = EditPlan::from_workspace_edit(WorkspaceEdit {
        document_changes: Some(DocumentChanges::Edits(vec![entry("first"), entry("second")])),
        ..WorkspaceEdit::empty()
    });
    assert!(result.is_err(), "the second entry would corrupt the file");
}

#[test]
fn test_an_unrelated_resource_operation_does_not_license_a_second_entry() {
    let entry =
        |path: &str| DocumentChangeOperation::Edit(document(path, vec![edit(0, 0, "x")]));

    let result = EditPlan::from_workspace_edit(of_operations(vec![
        entry("/w/a.rs"),
        create("/w/b.rs"),
        entry("/w/a.rs"),
    ]));
    assert!(
        result.is_err(),
        "creating b.rs does not make a second entry for a.rs safe"
    );
}

#[test]
fn test_two_spellings_of_one_path_are_still_two_entries() {
    let entry = |path: &str| document(path, vec![edit(0, 0, "x")]);

    let result = EditPlan::from_workspace_edit(WorkspaceEdit {
        document_changes: Some(DocumentChanges::Edits(vec![
            entry("/w/a%2Eb.rs"),
            entry("/w/a.b.rs"),
        ])),
        ..WorkspaceEdit::empty()
    });
    assert!(
        result.is_err(),
        "the two URIs resolve to the same path, so this is one document twice"
    );
}

#[test]
fn test_a_resource_operation_between_two_entries_is_allowed() {
    let entry =
        |path: &str| DocumentChangeOperation::Edit(document(path, vec![edit(0, 0, "x")]));

    let plan = EditPlan::from_workspace_edit(of_operations(vec![
        entry("/w/a.rs"),
        create("/w/a.rs"),
        entry("/w/a.rs"),
    ]))
    .expect("plan builds");
    assert_eq!(plan.operations().len(), 3);
}

#[test]
fn test_empty_edit_produces_no_operations() {
    let plan = EditPlan::from_workspace_edit(WorkspaceEdit::empty()).expect("plan builds");
    assert!(plan.operations().is_empty());
}

#[test]
fn an_overlap_is_reported_with_both_ranges() {
    let result = EditPlan::from_workspace_edit(of_changes(
        "/w/a.rs",
        vec![edit(1, 4, "a"), edit(2, 6, "b")],
    ));
    let Err(Error::ApplyRefused(message)) = result else {
        panic!("expected a refusal");
    };
    assert!(message.contains("file:///w/a.rs"), "{message}");
    assert!(message.contains("overlap"), "{message}");
}

#[test]
fn touching_edits_do_not_overlap() {
    let plan = EditPlan::from_workspace_edit(of_changes(
        "/w/a.rs",
        vec![edit(1, 4, "a"), edit(4, 6, "b")],
    ))
    .expect("plan builds");
    let Operation::Edit { edits, .. } = &plan.operations()[0] else {
        panic!("expected an edit operation");
    };
    assert_eq!(edits[0].new_text, "b");
}

#[test]
fn a_rename_between_two_entries_licenses_the_second() {
    let entry =
        |path: &str| DocumentChangeOperation::Edit(document(path, vec![edit(0, 0, "x")]));
    let rename = DocumentChangeOperation::Op(ResourceOp::Rename {
        old_uri: uri("/w/a.rs"),
        new_uri: uri("/w/b.rs"),
        options: None,
    });
    let plan = EditPlan::from_workspace_edit(of_operations(vec![
        entry("/w/a.rs"),
        entry("/w/b.rs"),
        rename,
        entry("/w/a.rs"),
        entry("/w/b.rs"),
    ]))
    .expect("plan builds");
    assert_eq!(plan.operations().len(), 5);
}

#[test]
fn a_delete_carries_both_of_its_flags() {
    let plan = EditPlan::from_workspace_edit(of_operations(vec![DocumentChangeOperation::Op(
        ResourceOp::Delete {
            uri: uri("/w/a.rs"),
            options: Some(DeleteOptions {
                recursive: Some(true),
                ignore_if_not_exists: Some(true),
            }),
        },
    )]))
    .expect("plan builds");
    assert_eq!(
        plan.operations()[0],
        Operation::Delete {
            uri: uri("/w/a.rs"),
            recursive: true,
            ignore_if_not_exists: true,
        }
    );
}
