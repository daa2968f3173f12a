//! What a plan promises of the workspace edit it was made from.

use crate::error::ErrorView;
use crate::plan;
use crate::plan::{
    ChangeView, DocumentChanges, KeyedView, OperationView, ResourceOpView, TextEditView,
    WorkspaceEdit,
};
use vstd::prelude::*;

verus! {

/// Whether of two of a document's edits the one at `i` is spliced before the
/// one at `j`: it starts later, or it starts at the same place and was listed
/// later.
pub open spec fn goes_first(edits: Seq<TextEditView>, i: int, j: int) -> bool {
    let a = edits[i].range.start;
    let b = edits[j].range.start;
    ||| b.line < a.line
    ||| b.line == a.line && b.character < a.character
    ||| b == a && i > j
}

/// Whether two of a document's edits overlap: the one that is spliced second
/// ends behind the start of the one that is spliced first.
pub open spec fn overlap(edits: Seq<TextEditView>, i: int, j: int) -> bool {
    let start = edits[i].range.start;
    let end = edits[j].range.end;
    goes_first(edits, i, j) && (start.line < end.line || (start.line == end.line && start.character
        < end.character))
}

/// Whether no two of a document's edits overlap.
pub open spec fn apart(edits: Seq<TextEditView>) -> bool {
    forall|i: int, j: int|
        0 <= i < edits.len() && 0 <= j < edits.len() && i != j ==> !#[trigger] overlap(edits, i, j)
}

/// Whether `out` is `edits` as `order` arranges them, bottom-up.
pub open spec fn arranged(edits: Seq<TextEditView>, out: Seq<TextEditView>, order: Seq<int>) -> bool {
    &&& out.len() == edits.len()
    &&& order.len() == edits.len()
    &&& order.no_duplicates()
    &&& forall|k: int|
        0 <= k < order.len() ==> 0 <= #[trigger] order[k] < edits.len() && out[k]
            == edits[order[k]]
    &&& forall|p: int, q: int|
        0 <= p < q < order.len() ==> goes_first(edits, #[trigger] order[p], #[trigger] order[q])
}

/// Whether `op` edits the document at `uri` with exactly these edits, each
/// once and bottom-up.
pub open spec fn splices(
    op: OperationView,
    uri: Seq<char>,
    version: Option<i32>,
    edits: Seq<TextEditView>,
) -> bool {
    match op {
        OperationView::Edit { uri: at, version: computed, edits: out } => {
            &&& at == uri
            &&& computed == version
            &&& exists|order: Seq<int>| #[trigger] arranged(edits, out, order)
        },
        _ => false,
    }
}

/// A document's edits are planned exactly where no two of them overlap, and
/// then as one operation on that document, with each edit once and bottom-up.
pub proof fn law_a_document_is_spliced_bottom_up(
    uri: Seq<char>,
    version: Option<i32>,
    edits: Seq<TextEditView>,
)
    ensures
        plan::edit_operation(uri, version, edits) is Ok <==> apart(edits),
        plan::edit_operation(uri, version, edits) matches Ok(op) ==> splices(
            op,
            uri,
            version,
            edits,
        ),
        plan::edit_operation(uri, version, edits) matches Err(e) ==> e is ApplyRefused,
{
    let order = plan::splice_order(edits);
    let sorted = plan::bottom_up(edits);
    plan::law_every_edit_is_spliced_once(edits);
    assert forall|p: int, q: int| 0 <= p < q < order.len() implies goes_first(
        edits,
        #[trigger] order[p],
        #[trigger] order[q],
    ) by {
        plan::law_edits_are_spliced_from_the_bottom(edits, p, q);
    }
    assert(arranged(edits, sorted, order));
    if plan::edit_operation(uri, version, edits) is Ok {
        let op = plan::edit_operation(uri, version, edits)->Ok_0;
        assert(op == (OperationView::Edit { uri, version, edits: sorted }));
        assert(arranged(edits, op->edits, order));
        assert(splices(op, uri, version, edits));
        assert forall|i: int, j: int|
            0 <= i < edits.len() && 0 <= j < edits.len() && i != j implies !#[trigger] overlap(
            edits,
            i,
            j,
        ) by {
            assert(order.contains(i));
            assert(order.contains(j));
            let p = choose|p: int| 0 <= p < order.len() && order[p] == i;
            let q = choose|q: int| 0 <= q < order.len() && order[q] == j;
            if p < q {
                plan::law_splicing_leaves_later_ranges_valid(uri, version, edits, p, q);
            } else {
                assert(goes_first(edits, order[q], order[p]));
            }
        }
    } else {
        let k = choose|k: int| plan::first_overlap(sorted, k);
        assert(plan::reaches_into(sorted, k));
        assert(goes_first(edits, order[k], order[k + 1]));
        assert(overlap(edits, order[k], order[k + 1]));
    }
}

/// Where each document's edits stand under its URI, the plan has one operation
/// for each document, in their order: the one that splices that document's
/// edits. There is a plan exactly where no document's edits overlap.
pub proof fn law_every_document_is_planned(changes: Seq<(Seq<char>, Seq<TextEditView>)>)
    ensures
        plan::planned_changes(changes) is Ok <==> forall|i: int|
            0 <= i < changes.len() ==> apart((#[trigger] changes[i]).1),
        plan::planned_changes(changes) matches Ok(ops) ==> {
            &&& ops.len() == changes.len()
            &&& forall|i: int|
                0 <= i < changes.len() ==> splices(
                    #[trigger] ops[i],
                    changes[i].0,
                    None,
                    changes[i].1,
                )
        },
        plan::planned_changes(changes) matches Err(e) ==> e is ApplyRefused,
    decreases changes.len(),
{
    if changes.len() > 0 {
        let less = changes.drop_last();
        law_every_document_is_planned(less);
        law_a_document_is_spliced_bottom_up(changes.last().0, None, changes.last().1);
        assert(forall|i: int| 0 <= i < less.len() ==> less[i] == changes[i]);
        if plan::planned_changes(changes) is Ok {
            assert forall|i: int| 0 <= i < changes.len() implies apart((#[trigger] changes[i]).1) by {
                if i < less.len() {
                    assert(apart(less[i].1));
                }
            }
            let ops = plan::planned_changes(changes)->Ok_0;
            let before = plan::planned_changes(less)->Ok_0;
            assert forall|i: int| 0 <= i < changes.len() implies splices(
                #[trigger] ops[i],
                changes[i].0,
                None,
                changes[i].1,
            ) by {
                if i < less.len() {
                    assert(ops[i] == before[i]);
                    assert(splices(before[i], less[i].0, None, less[i].1));
                }
            }
        } else if forall|i: int| 0 <= i < changes.len() ==> apart((#[trigger] changes[i]).1) {
            assert(apart(changes[changes.len() - 1].1));
            assert forall|i: int| 0 <= i < less.len() implies apart((#[trigger] less[i]).1) by {
                assert(apart(changes[i].1));
            }
        }
    }
}

/// Whether `op` does what `change` asks for: edits the same document, or
/// creates, renames or deletes the same file. A flag counts as set only where
/// it was given and true.
pub open spec fn performs(op: OperationView, change: ChangeView) -> bool {
    match change {
        ChangeView::Edit(edit) => splices(op, edit.uri, edit.version, edit.edits),
        ChangeView::Op(ResourceOpView::Create { uri, options }) => match op {
            OperationView::Create { uri: at, overwrite, ignore_if_exists } => {
                &&& at == uri
                &&& overwrite <==> options is Some && options->Some_0.overwrite == Some(true)
                &&& ignore_if_exists <==> options is Some && options->Some_0.ignore_if_exists
                    == Some(true)
            },
            _ => false,
        },
        ChangeView::Op(ResourceOpView::Rename { old_uri, new_uri, options }) => match op {
            OperationView::Rename { old: from, new: to, overwrite, ignore_if_exists } => {
                &&& from == old_uri
                &&& to == new_uri
                &&& overwrite <==> options is Some && options->Some_0.overwrite == Some(true)
                &&& ignore_if_exists <==> options is Some && options->Some_0.ignore_if_exists
                    == Some(true)
            },
            _ => false,
        },
        ChangeView::Op(ResourceOpView::Delete { uri, options }) => match op {
            OperationView::Delete { uri: at, recursive, ignore_if_not_exists } => {
                &&& at == uri
                &&& recursive <==> options is Some && options->Some_0.recursive == Some(true)
                &&& ignore_if_not_exists <==> options is Some
                    && options->Some_0.ignore_if_not_exists == Some(true)
            },
            _ => false,
        },
    }
}

/// What a change is without the documents it addresses.
pub open spec fn bare(change: KeyedView) -> ChangeView {
    match change {
        KeyedView::Edit { edit, .. } => ChangeView::Edit(edit),
        KeyedView::Op { op, .. } => ChangeView::Op(op),
    }
}

/// A plan has one operation for each change, in their order, and each does
/// what its change asks for.
pub proof fn law_every_change_is_performed(changes: Seq<KeyedView>)
    requires
        plan::planned(changes) is Ok,
    ensures
        plan::planned(changes)->Ok_0.operations.len() == changes.len(),
        forall|i: int|
            0 <= i < changes.len() ==> performs(
                #[trigger] plan::planned(changes)->Ok_0.operations[i],
                bare(changes[i]),
            ),
{
    plan::law_operations_keep_their_order(changes);
    let ops = plan::planned(changes)->Ok_0.operations;
    assert forall|i: int| 0 <= i < changes.len() implies performs(
        #[trigger] ops[i],
        bare(changes[i]),
    ) by {
        if let KeyedView::Edit { edit, .. } = changes[i] {
            law_a_document_is_spliced_bottom_up(edit.uri, edit.version, edit.edits);
        }
    }
}

/// Whether a document that one entry edits is edited by a later one with no
/// change between them that replaces it.
pub open spec fn edited_twice(changes: Seq<KeyedView>, i: int, j: int) -> bool {
    &&& 0 <= i < j < changes.len()
    &&& changes[i] is Edit
    &&& changes[j] is Edit
    &&& changes[i]->Edit_key == changes[j]->Edit_key
    &&& forall|k: int|
        i < k < j ==> !#[trigger] plan::replaces_document(changes, k, changes[i]->Edit_key)
}

/// The documents that a plan holds to be edited are those that an entry
/// edited and no later change replaced.
proof fn lemma_edited(changes: Seq<KeyedView>, key: Seq<char>)
    requires
        plan::planned(changes) is Ok,
        plan::planned(changes)->Ok_0.edited.contains(key),
    ensures
        exists|i: int|
            {
                &&& #[trigger] plan::edits_document(changes, i, key)
                &&& 0 <= i < changes.len()
                &&& forall|k: int|
                    i < k < changes.len() ==> !#[trigger] plan::replaces_document(changes, k, key)
            },
    decreases changes.len(),
{
    let less = changes.drop_last();
    let n = changes.len() - 1;
    if plan::edits_document(changes, n, key) {
    } else {
        assert(plan::planned(less)->Ok_0.edited.contains(key));
        lemma_edited(less, key);
        let i = choose|i: int|
            {
                &&& #[trigger] plan::edits_document(less, i, key)
                &&& 0 <= i < less.len()
                &&& forall|k: int|
                    i < k < less.len() ==> !#[trigger] plan::replaces_document(less, k, key)
            };
        assert(plan::edits_document(changes, i, key));
        assert forall|k: int| i < k < changes.len() implies !#[trigger] plan::replaces_document(
            changes,
            k,
            key,
        ) by {
            if k < n {
                assert(!plan::replaces_document(less, k, key));
            }
        }
    }
}

/// There is a plan exactly where no document's edits overlap and no document
/// is edited twice without a change between that replaces it.
pub proof fn law_what_is_refused(changes: Seq<KeyedView>)
    ensures
        plan::planned(changes) is Ok <==> {
            &&& forall|i: int|
                0 <= i < changes.len() && changes[i] is Edit ==> apart(
                    (#[trigger] changes[i])->Edit_edit.edits,
                )
            &&& forall|i: int, j: int| !#[trigger] edited_twice(changes, i, j)
        },
        plan::planned(changes) matches Err(e) ==> e is ApplyRefused,
    decreases changes.len(),
{
    if changes.len() > 0 {
        let less = changes.drop_last();
        let n = changes.len() - 1;
        law_what_is_refused(less);
        if let KeyedView::Edit { key, edit } = changes.last() {
            law_a_document_is_spliced_bottom_up(edit.uri, edit.version, edit.edits);
        }
        if plan::planned(changes) is Ok {
            assert forall|i: int| 0 <= i < changes.len() && changes[i] is Edit implies apart(
                (#[trigger] changes[i])->Edit_edit.edits,
            ) by {
                if i < n {
                    assert(apart(less[i]->Edit_edit.edits));
                }
            }
            assert forall|i: int, j: int| !#[trigger] edited_twice(changes, i, j) by {
                if edited_twice(changes, i, j) {
                    let key = changes[i]->Edit_key;
                    assert(plan::edits_document(changes, i, key));
                    assert(plan::edits_document(changes, j, key));
                    plan::law_a_second_entry_needs_a_replacement(changes, i, j, key);
                }
            }
        } else if (forall|i: int|
            0 <= i < changes.len() && changes[i] is Edit ==> apart(
                (#[trigger] changes[i])->Edit_edit.edits,
            )) && (forall|i: int, j: int| !#[trigger] edited_twice(changes, i, j)) {
            assert forall|i: int| 0 <= i < less.len() && less[i] is Edit implies apart(
                (#[trigger] less[i])->Edit_edit.edits,
            ) by {
                assert(apart(changes[i]->Edit_edit.edits));
            }
            assert forall|i: int, j: int| !#[trigger] edited_twice(less, i, j) by {
                if edited_twice(less, i, j) {
                    assert forall|k: int| i < k < j implies !#[trigger] plan::replaces_document(
                        changes,
                        k,
                        changes[i]->Edit_key,
                    ) by {
                        assert(!plan::replaces_document(less, k, less[i]->Edit_key));
                    }
                    assert(edited_twice(changes, i, j));
                }
            }
            assert(plan::planned(less) is Ok);
            if let KeyedView::Edit { key, edit } = changes.last() {
                assert(apart(changes[n]->Edit_edit.edits));
                assert(plan::planned(less)->Ok_0.edited.contains(key));
                lemma_edited(less, key);
                let i = choose|i: int|
                    {
                        &&& #[trigger] plan::edits_document(less, i, key)
                        &&& 0 <= i < less.len()
                        &&& forall|k: int|
                            i < k < less.len() ==> !#[trigger] plan::replaces_document(less, k, key)
                    };
                assert forall|k: int| i < k < n implies !#[trigger] plan::replaces_document(
                    changes,
                    k,
                    changes[i]->Edit_key,
                ) by {
                    assert(!plan::replaces_document(less, k, key));
                }
                assert(edited_twice(changes, i, n));
            }
        }
    }
}

/// The changes of a workspace edit in the newer shape.
pub open spec fn newer_changes(changes: DocumentChanges) -> Seq<ChangeView> {
    match changes {
        DocumentChanges::Edits(edits) => Seq::new(
            edits@.len(),
            |i: int| ChangeView::Edit(edits@[i].deep_view()),
        ),
        DocumentChanges::Operations(ops) => Seq::new(ops@.len(), |i: int| ops@[i].deep_view()),
    }
}

/// A plan of an edit in the newer shape does each of its changes, in their
/// order, and nothing of the older shape beside it.
pub proof fn law_the_newer_shape_is_planned(edit: WorkspaceEdit)
    requires
        edit.document_changes is Some,
    ensures
        plan::plan_of(edit) matches Ok(ops) ==> {
            let changes = newer_changes(edit.document_changes->Some_0);
            &&& ops.len() == changes.len()
            &&& forall|i: int| 0 <= i < changes.len() ==> performs(#[trigger] ops[i], changes[i])
        },
        forall|other: WorkspaceEdit|
            other.document_changes == edit.document_changes ==> #[trigger] plan::plan_of(other)
                == plan::plan_of(edit),
{
    let given = edit.document_changes->Some_0;
    let changes = newer_changes(given);
    let keyed = match given {
        DocumentChanges::Edits(edits) => plan::edits_as_changes(edits.deep_view()).map(
            |_i, c: ChangeView| plan::keyed(c),
        ),
        DocumentChanges::Operations(ops) => ops.deep_view().map(
            |_i, c: ChangeView| plan::keyed(c),
        ),
    };
    assert(keyed.len() == changes.len());
    assert forall|i: int| 0 <= i < changes.len() implies bare(keyed[i]) == #[trigger] changes[i] by {
    }
    if plan::plan_of(edit) is Ok {
        assert(plan::plan_of(edit) == plan::planned_operations(keyed));
        law_every_change_is_performed(keyed);
        let ops = plan::plan_of(edit)->Ok_0;
        assert forall|i: int| 0 <= i < changes.len() implies performs(
            #[trigger] ops[i],
            changes[i],
        ) by {
            assert(performs(plan::planned(keyed)->Ok_0.operations[i], bare(keyed[i])));
            assert(bare(keyed[i]) == changes[i]);
        }
    }
}

/// Whether a change creates, moves or removes the document at `key`, or moves
/// another to its place.
pub open spec fn disturbs(change: ChangeView, key: Seq<char>) -> bool {
    match change {
        ChangeView::Edit(_) => false,
        ChangeView::Op(ResourceOpView::Create { uri, .. }) => plan::document_key(uri) == key,
        ChangeView::Op(ResourceOpView::Rename { old_uri, new_uri, .. }) => plan::document_key(
            old_uri,
        ) == key || plan::document_key(new_uri) == key,
        ChangeView::Op(ResourceOpView::Delete { uri, .. }) => plan::document_key(uri) == key,
    }
}

/// Whether two entries edit one document, and no change between them disturbs
/// it.
pub open spec fn clash(changes: Seq<ChangeView>, i: int, j: int) -> bool {
    &&& 0 <= i < j < changes.len()
    &&& changes[i] is Edit
    &&& changes[j] is Edit
    &&& plan::document_key(changes[i]->Edit_0.uri) == plan::document_key(changes[j]->Edit_0.uri)
    &&& forall|k: int|
        i < k < j ==> !disturbs(
            #[trigger] changes[k],
            plan::document_key(changes[i]->Edit_0.uri),
        )
}

/// An edit in the newer shape is refused exactly where the edits of one of its
/// entries overlap, or where two entries edit one document with no change
/// between them that creates, moves or removes it.
pub proof fn law_what_the_newer_shape_is_refused_for(edit: WorkspaceEdit)
    requires
        edit.document_changes is Some,
    ensures
        plan::plan_of(edit) is Ok <==> {
            let changes = newer_changes(edit.document_changes->Some_0);
            &&& forall|i: int|
                0 <= i < changes.len() && changes[i] is Edit ==> apart(
                    (#[trigger] changes[i])->Edit_0.edits,
                )
            &&& forall|i: int, j: int| !#[trigger] clash(changes, i, j)
        },
{
    let given = edit.document_changes->Some_0;
    let changes = newer_changes(given);
    let keyed = match given {
        DocumentChanges::Edits(edits) => plan::edits_as_changes(edits.deep_view()).map(
            |_i, c: ChangeView| plan::keyed(c),
        ),
        DocumentChanges::Operations(ops) => ops.deep_view().map(
            |_i, c: ChangeView| plan::keyed(c),
        ),
    };
    assert(plan::plan_of(edit) == plan::planned_operations(keyed));
    assert(keyed.len() == changes.len());
    assert(forall|i: int|
        0 <= i < changes.len() ==> #[trigger] keyed[i] == plan::keyed(changes[i]));
    law_what_is_refused(keyed);
    assert forall|k: int, key: Seq<char>|
        0 <= k < changes.len() implies #[trigger] plan::replaces_document(keyed, k, key)
        == disturbs(changes[k], key) by {
        assert(keyed[k] == plan::keyed(changes[k]));
        if let ChangeView::Op(op) = changes[k] {
            let replaced = plan::replaced_keys(op);
            if replaced.contains(key) {
                let m = choose|m: int| 0 <= m < replaced.len() && replaced[m] == key;
                assert(m == 0 || m == 1);
            }
            if disturbs(changes[k], key) {
                assert(replaced[0] == key || replaced[1] == key);
            }
        }
    }
    assert forall|i: int, j: int| #[trigger] edited_twice(keyed, i, j) == clash(changes, i, j) by {
        if 0 <= i < j < changes.len() && changes[i] is Edit {
            assert(keyed[i] == plan::keyed(changes[i]));
            assert(keyed[j] == plan::keyed(changes[j]));
            let key = keyed[i]->Edit_key;
            if edited_twice(keyed, i, j) {
                assert forall|k: int| i < k < j implies !disturbs(
                    #[trigger] changes[k],
                    key,
                ) by {
                    assert(!plan::replaces_document(keyed, k, key));
                }
            }
            if clash(changes, i, j) {
                assert forall|k: int| i < k < j implies !#[trigger] plan::replaces_document(
                    keyed,
                    k,
                    key,
                ) by {
                    assert(!disturbs(changes[k], key));
                }
            }
        } else if 0 <= i < j < changes.len() {
            assert(keyed[i] == plan::keyed(changes[i]));
        }
    }
    if plan::planned(keyed) is Ok {
        assert forall|i: int| 0 <= i < changes.len() && changes[i] is Edit implies apart(
            (#[trigger] changes[i])->Edit_0.edits,
        ) by {
            assert(apart(keyed[i]->Edit_edit.edits));
        }
        assert forall|i: int, j: int| !#[trigger] clash(changes, i, j) by {
            assert(!edited_twice(keyed, i, j));
        }
    } else if (forall|i: int|
        0 <= i < changes.len() && changes[i] is Edit ==> apart(
            (#[trigger] changes[i])->Edit_0.edits,
        )) && (forall|i: int, j: int| !#[trigger] clash(changes, i, j)) {
        assert forall|i: int| 0 <= i < keyed.len() && keyed[i] is Edit implies apart(
            (#[trigger] keyed[i])->Edit_edit.edits,
        ) by {
            assert(keyed[i] == plan::keyed(changes[i]));
            assert(apart(changes[i]->Edit_0.edits));
        }
        assert forall|i: int, j: int| !#[trigger] edited_twice(keyed, i, j) by {
            assert(!clash(changes, i, j));
        }
    }
}

/// A plan of an edit in the older shape alone has one operation for each of
/// its documents, in their order, which splices that document's edits. An edit
/// in neither shape has an empty plan.
pub proof fn law_the_older_shape_is_planned(edit: WorkspaceEdit)
    requires
        edit.document_changes is None,
    ensures
        edit.changes matches Some(changes) ==> (plan::plan_of(edit) matches Ok(ops) ==> {
            &&& ops.len() == changes@.len()
            &&& forall|i: int|
                0 <= i < ops.len() ==> splices(
                    #[trigger] ops[i],
                    changes@[i].0@,
                    None,
                    changes@[i].1.deep_view(),
                )
        }),
        edit.changes is None ==> plan::plan_of(edit) == Ok::<Seq<OperationView>, ErrorView>(
            Seq::empty(),
        ),
{
    if let Some(changes) = edit.changes {
        law_every_document_is_planned(changes.deep_view());
        assert(changes.deep_view().len() == changes@.len());
        assert(forall|i: int|
            0 <= i < changes@.len() ==> #[trigger] changes.deep_view()[i] == (
                changes@[i].0@,
                changes@[i].1.deep_view(),
            ));
    }
}

/// Of the options of a file operation each stands for itself, and one that is
/// not given is off.
pub proof fn law_options_are_taken_as_given(op: ResourceOpView)
    ensures
        op matches ResourceOpView::Create { uri, options } ==> {
            plan::resource_operation(op) matches OperationView::Create {
                uri: made,
                overwrite,
                ignore_if_exists,
            } && {
                &&& made == uri
                &&& options is None ==> !overwrite && !ignore_if_exists
                &&& options is Some ==> (overwrite <==> options->Some_0.overwrite == Some(true))
                &&& options is Some ==> (ignore_if_exists <==> options->Some_0.ignore_if_exists
                    == Some(true))
            }
        },
        op matches ResourceOpView::Rename { old_uri, new_uri, options } ==> {
            plan::resource_operation(op) matches OperationView::Rename {
                old,
                new,
                overwrite,
                ignore_if_exists,
            } && {
                &&& old == old_uri
                &&& new == new_uri
                &&& options is None ==> !overwrite && !ignore_if_exists
                &&& options is Some ==> (overwrite <==> options->Some_0.overwrite == Some(true))
                &&& options is Some ==> (ignore_if_exists <==> options->Some_0.ignore_if_exists
                    == Some(true))
            }
        },
        op matches ResourceOpView::Delete { uri, options } ==> {
            plan::resource_operation(op) matches OperationView::Delete {
                uri: gone,
                recursive,
                ignore_if_not_exists,
            } && {
                &&& gone == uri
                &&& options is None ==> !recursive && !ignore_if_not_exists
                &&& options is Some ==> (recursive <==> options->Some_0.recursive == Some(true))
                &&& options is Some ==> (ignore_if_not_exists
                    <==> options->Some_0.ignore_if_not_exists == Some(true))
            }
        },
{
}

} // verus!
