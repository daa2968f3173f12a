//! What a document's symbols are shown as.

use crate::delivery::DiagnosticSnapshot;
use crate::ledger::SourceView;
use crate::reply;
use crate::symbols;
use crate::symbols::{DocumentSymbol, DocumentSymbolResponse, Symbol, SymbolInformation};
use vstd::prelude::*;
use vstd::string::*;

verus! {

/// The symbol that `path` leads to, one index for each step down, if there is
/// one.
pub open spec fn sent_at(symbol: DocumentSymbol, path: Seq<int>) -> Option<DocumentSymbol>
    decreases path.len(),
{
    if path.len() == 0 {
        Some(symbol)
    } else {
        match symbol.children {
            Some(list) if 0 <= path[0] < list@.len() => sent_at(
                list@[path[0]],
                path.drop_first(),
            ),
            _ => None,
        }
    }
}

/// The shown symbol that `path` leads to, if there is one.
pub open spec fn shown_at(symbol: Symbol, path: Seq<int>) -> Option<Symbol>
    decreases path.len(),
{
    if path.len() == 0 {
        Some(symbol)
    } else {
        match symbol.children {
            Some(list) if 0 <= path[0] < list@.len() => shown_at(
                list@[path[0]],
                path.drop_first(),
            ),
            _ => None,
        }
    }
}

/// Whether a shown symbol is the one that was sent, as far as the two
/// themselves go: what it is called, what it is, and where it and its name
/// begin and end in the document.
pub open spec fn is_shown(source: SourceView, sent: DocumentSymbol, shown: Symbol) -> bool {
    &&& shown.name@ == sent.name@
    &&& shown.kind@ == sent.kind@
    &&& shown.range.start == reply::position_in(source, sent.range.start)
    &&& shown.range.end == reply::position_in(source, sent.range.end)
    &&& shown.selection_range.start == reply::position_in(source, sent.selection_range.start)
    &&& shown.selection_range.end == reply::position_in(source, sent.selection_range.end)
    &&& (shown.children is Some <==> sent.children is Some)
}

/// Every symbol of a tree, however deep, is shown at the place where it was
/// sent, and nothing is shown at any other place.
pub proof fn law_a_tree_is_shown_node_by_node(
    source: SourceView,
    sent: DocumentSymbol,
    shown: Symbol,
    path: Seq<int>,
)
    requires
        symbols::shows_symbol(source, sent, shown),
    ensures
        sent_at(sent, path) is Some <==> shown_at(shown, path) is Some,
        sent_at(sent, path) is Some ==> is_shown(
            source,
            sent_at(sent, path)->Some_0,
            shown_at(shown, path)->Some_0,
        ),
    decreases path.len(),
{
    if path.len() > 0 && sent.children is Some {
        let a = sent.children->Some_0;
        let b = shown.children->Some_0;
        if 0 <= path[0] < a@.len() {
            assert(symbols::shows_symbol(source, a@[path[0]], b@[path[0]]));
            law_a_tree_is_shown_node_by_node(
                source,
                a@[path[0]],
                b@[path[0]],
                path.drop_first(),
            );
        }
    }
}

/// An answer that is a tree is shown tree by tree, in order, each with all that
/// it holds; no answer shows nothing.
pub proof fn law_an_outline_is_shown_in_full(
    list: Vec<DocumentSymbol>,
    source: SourceView,
    out: Seq<Symbol>,
    i: int,
    path: Seq<int>,
)
    ensures
        symbols::shows_answer(None, source, out) <==> out.len() == 0,
        symbols::shows_answer(Some(DocumentSymbolResponse::Nested(list)), source, out) ==> {
            &&& out.len() == list@.len()
            &&& 0 <= i < list@.len() ==> (sent_at(list@[i], path) is Some <==> shown_at(
                out[i],
                path,
            ) is Some)
            &&& 0 <= i < list@.len() && sent_at(list@[i], path) is Some ==> is_shown(
                source,
                sent_at(list@[i], path)->Some_0,
                shown_at(out[i], path)->Some_0,
            )
        },
{
    if symbols::shows_answer(Some(DocumentSymbolResponse::Nested(list)), source, out) && 0 <= i
        < list@.len() {
        let o = out[i];
        assert(symbols::shows_symbol(source, list@[i], o));
        law_a_tree_is_shown_node_by_node(source, list@[i], o, path);
    }
}

/// An answer that is a list is shown entry by entry, in order, each in the text
/// of the document that it came with, selected whole and holding nothing.
pub proof fn law_a_listed_symbol_is_shown_as_sent(
    list: Vec<(SymbolInformation, DiagnosticSnapshot)>,
    source: SourceView,
    out: Seq<Symbol>,
    i: int,
)
    requires
        symbols::shows_answer(Some(DocumentSymbolResponse::Flat(list)), source, out),
        0 <= i < list@.len(),
    ensures
        out.len() == list@.len(),
        out[i].name@ == list@[i].0.name@,
        out[i].kind@ == list@[i].0.kind@,
        out[i].range.start == reply::position_in(
            list@[i].1.deep_view(),
            list@[i].0.range.start,
        ),
        out[i].range.end == reply::position_in(list@[i].1.deep_view(), list@[i].0.range.end),
        out[i].selection_range == out[i].range,
        out[i].children is None,
{
    let o = out[i];
    assert(symbols::shows_listed(list@[i], o));
}

} // verus!
