//! Document symbols and workspace symbol search.

use crate::config::ServerId;
use crate::delivery::DiagnosticSnapshot;
use crate::diagnostics;
use crate::encoding;
use crate::encoding::PositionEncoding;
use crate::error::{Error, ErrorView};
use crate::ledger::SourceView;
use crate::lifecycle;
use crate::lifecycle::{ServerLifecycle, ServersView, Translator};
use crate::reply;
use crate::reply::Range;
use crate::table::Key;
use crate::text;
use crate::text::{decimal, eq_ignoring_case};
use vstd::prelude::*;
use vstd::string::*;

verus! {

/// The longest query, in bytes.
pub const MAX_QUERY_LENGTH: usize = 1000;

/// The kinds of symbols that a search can be narrowed to.
pub open spec fn symbol_kinds() -> Seq<Seq<char>> {
    seq![
        "File"@,
        "Module"@,
        "Namespace"@,
        "Package"@,
        "Class"@,
        "Method"@,
        "Property"@,
        "Field"@,
        "Constructor"@,
        "Enum"@,
        "Interface"@,
        "Function"@,
        "Variable"@,
        "Constant"@,
        "String"@,
        "Number"@,
        "Boolean"@,
        "Array"@,
        "Object"@,
        "Key"@,
        "Null"@,
        "EnumMember"@,
        "Struct"@,
        "Event"@,
        "Operator"@,
        "TypeParameter"@,
    ]
}

/// The kinds of symbols as messages list them.
pub open spec fn symbol_kinds_text() -> Seq<char> {
    "[\"File\", \"Module\", \"Namespace\", \"Package\", \"Class\", \"Method\", \"Property\", \"Field\", \"Constructor\", \"Enum\", \"Interface\", \"Function\", \"Variable\", \"Constant\", \"String\", \"Number\", \"Boolean\", \"Array\", \"Object\", \"Key\", \"Null\", \"EnumMember\", \"Struct\", \"Event\", \"Operator\", \"TypeParameter\"]"@
}

/// Whether a kind is one of those, whatever its case.
pub open spec fn known_kind(kind: Seq<char>) -> bool {
    exists|i: int|
        0 <= i < symbol_kinds().len() && text::same_ignoring_case(
            #[trigger] symbol_kinds()[i],
            kind,
        )
}

/// What is wrong with the parameters of a search, if anything.
pub open spec fn symbol_params_error(query: Seq<char>, kind: Option<Seq<char>>) -> Option<
    ErrorView,
> {
    let size = encoding::units(PositionEncoding::Utf8, query);
    if size > MAX_QUERY_LENGTH {
        Some(
            ErrorView::InvalidToolParams(
                "Query too long: "@ + text::dec_text(size) + " bytes (max 1000)"@,
            ),
        )
    } else if kind is Some && !known_kind(kind->Some_0) {
        Some(
            ErrorView::InvalidToolParams(
                "Invalid kind_filter: '"@ + kind->Some_0 + "'. Valid values: "@
                    + symbol_kinds_text(),
            ),
        )
    } else {
        None
    }
}

fn kind_names() -> (r: Vec<&'static str>)
    ensures
        r.len() == symbol_kinds().len(),
        forall|i: int| 0 <= i < r.len() ==> (#[trigger] r[i])@ == symbol_kinds()[i],
{
    vec![
        "File",
        "Module",
        "Namespace",
        "Package",
        "Class",
        "Method",
        "Property",
        "Field",
        "Constructor",
        "Enum",
        "Interface",
        "Function",
        "Variable",
        "Constant",
        "String",
        "Number",
        "Boolean",
        "Array",
        "Object",
        "Key",
        "Null",
        "EnumMember",
        "Struct",
        "Event",
        "Operator",
        "TypeParameter",
    ]
}

fn is_known_kind(kind: &str) -> (r: bool)
    ensures
        r == known_kind(kind@),
{
    let names = kind_names();
    let mut i: usize = 0;
    while i < names.len()
        invariant
            i <= names.len(),
            names.len() == symbol_kinds().len(),
            forall|j: int| 0 <= j < names.len() ==> (#[trigger] names[j])@ == symbol_kinds()[j],
            forall|j: int|
                0 <= j < i ==> !text::same_ignoring_case(#[trigger] symbol_kinds()[j], kind@),
        decreases names.len() - i,
    {
        assert(names[i as int]@ == symbol_kinds()[i as int]);
        if eq_ignoring_case(names[i], kind) {
            return true;
        }
        i = i + 1;
    }
    false
}

/// Validate the parameters of a workspace symbol search.
pub fn validate_workspace_symbol_params(query: &str, kind_filter: Option<&str>) -> (r: Result<
    (),
    Error,
>)
    ensures
        match r {
            Ok(()) => symbol_params_error(
                query@,
                match kind_filter {
                    Some(k) => Some(k@),
                    None => None,
                },
            ) is None,
            Err(e) => symbol_params_error(
                query@,
                match kind_filter {
                    Some(k) => Some(k@),
                    None => None,
                },
            ) == Some(e.deep_view()),
        },
{
    let size: usize = query.as_bytes().len();
    proof {
        encoding::law_bytes_are_utf8(query@);
    }
    if size > MAX_QUERY_LENGTH {
        let mut m = "Query too long: ".to_owned();
        m.append(decimal(size as u64).as_str());
        m.append(" bytes (max 1000)");
        return Err(Error::InvalidToolParams(m));
    }
    if let Some(kind) = kind_filter {
        if !is_known_kind(kind) {
            let mut m = "Invalid kind_filter: '".to_owned();
            m.append(kind);
            m.append("'. Valid values: ");
            m.append(
                "[\"File\", \"Module\", \"Namespace\", \"Package\", \"Class\", \"Method\", \"Property\", \"Field\", \"Constructor\", \"Enum\", \"Interface\", \"Function\", \"Variable\", \"Constant\", \"String\", \"Number\", \"Boolean\", \"Array\", \"Object\", \"Key\", \"Null\", \"EnumMember\", \"Struct\", \"Event\", \"Operator\", \"TypeParameter\"]",
            );
            return Err(Error::InvalidToolParams(m));
        }
    }
    Ok(())
}

/// A symbol of a document as a server reports it, with those it contains.
#[derive(Debug)]
pub struct DocumentSymbol {
    /// Its name.
    pub name: String,
    /// Its kind, in words.
    pub kind: String,
    /// What it spans.
    pub range: diagnostics::Range,
    /// What to select of it.
    pub selection_range: diagnostics::Range,
    /// The symbols it contains.
    pub children: Option<Vec<DocumentSymbol>>,
}

/// A symbol of a document as it is shown.
#[derive(Debug)]
pub struct Symbol {
    /// Its name.
    pub name: String,
    /// Its kind, in words.
    pub kind: String,
    /// What it spans.
    pub range: Range,
    /// What to select of it.
    pub selection_range: Range,
    /// The symbols it contains.
    pub children: Option<Vec<Symbol>>,
}

/// A stretch as a document's text shows it.
pub open spec fn range_in(source: SourceView, range: diagnostics::Range) -> Range {
    Range {
        start: reply::position_in(source, range.start),
        end: reply::position_in(source, range.end),
    }
}

/// Whether `out` shows `symbol`, and so on for the symbols it contains.
pub open spec fn shows_symbol(source: SourceView, symbol: DocumentSymbol, out: Symbol) -> bool
    decreases symbol,
{
    &&& out.name@ == symbol.name@
    &&& out.kind@ == symbol.kind@
    &&& out.range == range_in(source, symbol.range)
    &&& out.selection_range == range_in(source, symbol.selection_range)
    &&& match (symbol.children, out.children) {
        (Some(a), Some(b)) => a@.len() == b@.len() && forall|i: int| #![trigger b@[i]]
            0 <= i < a@.len() ==> shows_symbol(source, a@[i], b@[i]),
        (None, None) => true,
        _ => false,
    }
}

impl DiagnosticSnapshot {
    /// The stretch as this text shows it.
    pub fn normalize_range(&self, range: diagnostics::Range) -> (r: Range)
        ensures
            r == range_in(self.deep_view(), range),
    {
        Range { start: self.position(range.start), end: self.position(range.end) }
    }
}

/// A document symbol, and those it contains, as the document's text shows them.
pub fn convert_document_symbol(symbol: &DocumentSymbol, source: &DiagnosticSnapshot) -> (r: Symbol)
    ensures
        shows_symbol(source.deep_view(), *symbol, r),
    decreases symbol,
{
    let range = source.normalize_range(symbol.range);
    let selection_range = source.normalize_range(symbol.selection_range);
    let children = match &symbol.children {
        Some(list) => {
            let mut converted: Vec<Symbol> = Vec::new();
            let mut i: usize = 0;
            while i < list.len()
                invariant
                    i <= list.len(),
                    symbol.children == Some(*list),
                    converted.len() == i,
                    forall|j: int| #![trigger converted@[j]]
                        0 <= j < i ==> shows_symbol(
                            source.deep_view(),
                            list@[j],
                            converted@[j],
                        ),
                decreases list.len() - i,
            {
                proof {
                    assert(decreases_to!(*symbol => symbol.children));
                    assert(decreases_to!(symbol.children => symbol.children->Some_0));
                    assert(decreases_to!(*list => list@));
                    assert(decreases_to!(list@ => list@[i as int]));
                }
                let child = convert_document_symbol(&list[i], source);
                converted.push(child);
                i = i + 1;
            }
            Some(converted)
        },
        None => None,
    };
    Symbol { name: symbol.name.clone(), kind: symbol.kind.clone(), range, selection_range, children }
}

/// A symbol with the place it is at, as a server reports it.
#[derive(Clone, Debug, PartialEq, Eq)]
pub struct SymbolInformation {
    /// Its name.
    pub name: String,
    /// Its kind, in words.
    pub kind: String,
    /// The document it is in.
    pub uri: String,
    /// What it spans.
    pub range: diagnostics::Range,
    /// What contains it.
    pub container_name: Option<String>,
}

/// A place in a document.
#[derive(Clone, Debug, PartialEq, Eq)]
pub struct Location {
    /// The document.
    pub uri: String,
    /// The stretch of it.
    pub range: Range,
}

/// A symbol of the workspace as it is shown.
#[derive(Clone, Debug, PartialEq, Eq)]
pub struct WorkspaceSymbol {
    /// Its name.
    pub name: String,
    /// Its kind, in words.
    pub kind: String,
    /// Where it is.
    pub location: Location,
    /// What contains it.
    pub container_name: Option<String>,
}

/// What a [`WorkspaceSymbol`] stands for.
pub struct WorkspaceSymbolView {
    /// Its name.
    pub name: Seq<char>,
    /// Its kind, in words.
    pub kind: Seq<char>,
    /// The document it is in.
    pub uri: Seq<char>,
    /// What it spans.
    pub range: Range,
    /// What contains it.
    pub container_name: Option<Seq<char>>,
}

impl DeepView for WorkspaceSymbol {
    type V = WorkspaceSymbolView;

    open spec fn deep_view(&self) -> WorkspaceSymbolView {
        WorkspaceSymbolView {
            name: self.name@,
            kind: self.kind@,
            uri: self.location.uri@,
            range: self.location.range,
            container_name: self.container_name.deep_view(),
        }
    }
}

/// A reported symbol as the text of its document shows it.
pub open spec fn workspace_symbol(found: (SymbolInformation, DiagnosticSnapshot)) -> WorkspaceSymbolView {
    WorkspaceSymbolView {
        name: found.0.name@,
        kind: found.0.kind@,
        uri: found.0.uri@,
        range: range_in(found.1.deep_view(), found.0.range),
        container_name: found.0.container_name.deep_view(),
    }
}

/// Of the symbols found, those of the kind asked for.
pub open spec fn of_kind(
    symbols: Seq<WorkspaceSymbolView>,
    kind: Option<Seq<char>>,
) -> Seq<WorkspaceSymbolView> {
    match kind {
        None => symbols,
        Some(k) => symbols.filter(
            |s: WorkspaceSymbolView| text::same_ignoring_case(s.kind, k),
        ),
    }
}

/// The first `n` of a list, or all of it.
pub open spec fn at_most<A>(list: Seq<A>, n: nat) -> Seq<A> {
    if list.len() <= n {
        list
    } else {
        list.take(n as int)
    }
}

/// The symbols that a search shows: those of the kind asked for, and no more
/// than the limit.
pub open spec fn search_result(
    found: Seq<(SymbolInformation, DiagnosticSnapshot)>,
    kind: Option<Seq<char>>,
    limit: u32,
) -> Seq<WorkspaceSymbolView> {
    at_most(
        of_kind(
            found.map_values(|f: (SymbolInformation, DiagnosticSnapshot)| workspace_symbol(f)),
            kind,
        ),
        limit as nat,
    )
}

/// The symbols that a search shows, of those a server found, each with the
/// text of its document.
pub fn workspace_symbols(
    found: &Vec<(SymbolInformation, DiagnosticSnapshot)>,
    kind_filter: Option<&str>,
    limit: u32,
) -> (r: Vec<WorkspaceSymbol>)
    ensures
        r.deep_view() == search_result(
            found@,
            match kind_filter {
                Some(k) => Some(k@),
                None => None,
            },
            limit,
        ),
{
    let ghost kind = match kind_filter {
        Some(k) => Some(k@),
        None => None,
    };
    let ghost f = |x: (SymbolInformation, DiagnosticSnapshot)| workspace_symbol(x);
    let ghost all = found@.map_values(f);
    let mut r: Vec<WorkspaceSymbol> = Vec::new();
    let mut i: usize = 0;
    proof {
        reveal(Seq::filter);
        assert(all.take(0) =~= Seq::<WorkspaceSymbolView>::empty());
        assert(r.deep_view() =~= Seq::<WorkspaceSymbolView>::empty());
    }
    while i < found.len()
        invariant
            i <= found.len(),
            f == (|x: (SymbolInformation, DiagnosticSnapshot)| workspace_symbol(x)),
            all == found@.map_values(f),
            kind == (match kind_filter {
                Some(k) => Some(k@),
                None => None,
            }),
            r.deep_view() == of_kind(all.take(i as int), kind),
        decreases found.len() - i,
    {
        let ghost before = r.deep_view();
        let (symbol, source) = &found[i];
        proof {
            let next = all.take(i + 1);
            assert(next.drop_last() =~= all.take(i as int));
            assert(next.last() == workspace_symbol(found@[i as int]));
            assert(next =~= all.take(i as int).push(next.last()));
            reveal(Seq::filter);
        }
        let wanted = match kind_filter {
            None => true,
            Some(k) => eq_ignoring_case(&symbol.kind, k),
        };
        if wanted {
            r.push(
                WorkspaceSymbol {
                    name: symbol.name.clone(),
                    kind: symbol.kind.clone(),
                    location: Location {
                        uri: symbol.uri.clone(),
                        range: source.normalize_range(symbol.range),
                    },
                    container_name: match &symbol.container_name {
                        Some(name) => Some(name.clone()),
                        None => None,
                    },
                },
            );
            assert(r.deep_view() =~= before.push(all[i as int]));
        }
        i = i + 1;
    }
    assert(all.take(i as int) =~= all);
    let ghost kept = r.deep_view();
    if r.len() > limit as usize {
        r.truncate(limit as usize);
        assert(r.deep_view() =~= kept.take(limit as int));
    }
    r
}

/// A search never shows more than the limit, and of the kinds only the one
/// asked for.
pub proof fn law_a_search_keeps_to_what_was_asked(
    found: Seq<(SymbolInformation, DiagnosticSnapshot)>,
    kind: Option<Seq<char>>,
    limit: u32,
)
    ensures
        search_result(found, kind, limit).len() <= limit,
        forall|i: int|
            0 <= i < search_result(found, kind, limit).len() && kind is Some
                ==> text::same_ignoring_case(
                (#[trigger] search_result(found, kind, limit)[i]).kind,
                kind->Some_0,
            ),
{
    let f = |x: (SymbolInformation, DiagnosticSnapshot)| workspace_symbol(x);
    let all = found.map_values(f);
    if let Some(k) = kind {
        let keep = |s: WorkspaceSymbolView| text::same_ignoring_case(s.kind, k);
        all.filter_lemma(keep);
        let kept = of_kind(all, kind);
        let shown = search_result(found, kind, limit);
        assert forall|i: int| 0 <= i < shown.len() implies text::same_ignoring_case(
            (#[trigger] shown[i]).kind,
            k,
        ) by {
            assert(shown[i] == kept[i]);
            assert(keep(kept[i]));
        }
    }
}

/// Whether a shown symbol is the one that was reported: the same name, kind and
/// container, in the same document, at the place that the document's text gives
/// its range.
pub open spec fn stands_for(
    out: WorkspaceSymbolView,
    found: (SymbolInformation, DiagnosticSnapshot),
) -> bool {
    &&& out.name == found.0.name@
    &&& out.kind == found.0.kind@
    &&& out.uri == found.0.uri@
    &&& out.range.start == reply::position_in(found.1.deep_view(), found.0.range.start)
    &&& out.range.end == reply::position_in(found.1.deep_view(), found.0.range.end)
    &&& match found.0.container_name {
        Some(name) => out.container_name == Some(name@),
        None => out.container_name is None,
    }
}

/// Without a kind to keep to, a search shows the first of what was reported, as
/// many as the limit allows: the symbol at each place is the one that was
/// reported there, where it was reported.
pub proof fn law_a_search_shows_what_was_reported(
    found: Seq<(SymbolInformation, DiagnosticSnapshot)>,
    limit: u32,
)
    ensures
        found.len() <= limit ==> search_result(found, None, limit).len() == found.len(),
        found.len() > limit ==> search_result(found, None, limit).len() == limit,
        forall|i: int|
            0 <= i < search_result(found, None, limit).len() ==> stands_for(
                #[trigger] search_result(found, None, limit)[i],
                found[i],
            ),
{
}

/// Which of what was reported a search for a kind looks at, in their order.
proof fn lemma_of_kind(found: Seq<(SymbolInformation, DiagnosticSnapshot)>, kind: Seq<char>) -> (at:
    Seq<int>)
    ensures
        at.len() == of_kind(
            found.map_values(|f: (SymbolInformation, DiagnosticSnapshot)| workspace_symbol(f)),
            Some(kind),
        ).len(),
        forall|k: int|
            0 <= k < at.len() ==> 0 <= #[trigger] at[k] < found.len() && of_kind(
                found.map_values(|f: (SymbolInformation, DiagnosticSnapshot)| workspace_symbol(f)),
                Some(kind),
            )[k] == workspace_symbol(found[at[k]]),
        forall|p: int, q: int| 0 <= p < q < at.len() ==> #[trigger] at[p] < #[trigger] at[q],
        forall|i: int|
            0 <= i < found.len() && text::same_ignoring_case((#[trigger] found[i]).0.kind@, kind)
                ==> at.contains(i),
    decreases found.len(),
{
    reveal(Seq::filter);
    let f = |x: (SymbolInformation, DiagnosticSnapshot)| workspace_symbol(x);
    let all = found.map_values(f);
    if found.len() == 0 {
        Seq::empty()
    } else {
        let less = found.drop_last();
        let n = found.len() - 1;
        let before = lemma_of_kind(less, kind);
        assert(all.drop_last() =~= less.map_values(f));
        if text::same_ignoring_case(found.last().0.kind@, kind) {
            let at = before.push(n);
            assert(at[before.len() as int] == n);
            assert forall|i: int|
                0 <= i < found.len() && text::same_ignoring_case(
                    (#[trigger] found[i]).0.kind@,
                    kind,
                ) implies at.contains(i) by {
                if i < n {
                    assert(less[i] == found[i]);
                    assert(before.contains(i));
                    let k = choose|k: int| 0 <= k < before.len() && before[k] == i;
                    assert(at[k] == i);
                }
            }
            at
        } else {
            assert forall|i: int|
                0 <= i < found.len() && text::same_ignoring_case(
                    (#[trigger] found[i]).0.kind@,
                    kind,
                ) implies before.contains(i) by {
                assert(less[i] == found[i]);
            }
            before
        }
    }
}

/// Whether a search shows the reported symbols at the places in `at`, in their
/// order, and looked at all those of the kind before the last that it shows.
pub open spec fn shows_at(
    found: Seq<(SymbolInformation, DiagnosticSnapshot)>,
    kind: Seq<char>,
    shown: Seq<WorkspaceSymbolView>,
    at: Seq<int>,
) -> bool {
    &&& at.len() == shown.len()
    &&& forall|k: int|
        0 <= k < at.len() ==> 0 <= #[trigger] at[k] < found.len() && stands_for(
            shown[k],
            found[at[k]],
        )
    &&& forall|p: int, q: int| 0 <= p < q < at.len() ==> #[trigger] at[p] < #[trigger] at[q]
    &&& forall|i: int, k: int|
        0 <= i < #[trigger] at[k] && 0 <= k < at.len() && text::same_ignoring_case(
            (#[trigger] found[i]).0.kind@,
            kind,
        ) ==> at.contains(i)
}

/// A search for a kind shows, in the order in which they were reported, the
/// symbols of that kind and passes over none of them until the limit is
/// reached.
pub proof fn law_a_search_passes_over_nothing(
    found: Seq<(SymbolInformation, DiagnosticSnapshot)>,
    kind: Seq<char>,
    limit: u32,
)
    ensures
        exists|at: Seq<int>| #[trigger]
            shows_at(found, kind, search_result(found, Some(kind), limit), at),
        search_result(found, Some(kind), limit).len() < limit ==> forall|i: int|
            0 <= i < found.len() && text::same_ignoring_case((#[trigger] found[i]).0.kind@, kind)
                ==> exists|k: int|
                0 <= k < search_result(found, Some(kind), limit).len() && stands_for(
                    #[trigger] search_result(found, Some(kind), limit)[k],
                    found[i],
                ),
{
    let f = |x: (SymbolInformation, DiagnosticSnapshot)| workspace_symbol(x);
    let kept = of_kind(found.map_values(f), Some(kind));
    let shown = search_result(found, Some(kind), limit);
    let all = lemma_of_kind(found, kind);
    let at = all.take(shown.len() as int);
    assert forall|i: int, k: int|
        0 <= i < #[trigger] at[k] && 0 <= k < at.len() && text::same_ignoring_case(
            (#[trigger] found[i]).0.kind@,
            kind,
        ) implies at.contains(i) by {
        assert(all.contains(i));
        let m = choose|m: int| 0 <= m < all.len() && all[m] == i;
        if m >= k {
            assert(at[k] == all[k]);
            if m > k {
                assert(all[k] < all[m]);
            }
        }
        assert(at[m] == i);
    }
    assert(forall|k: int| 0 <= k < shown.len() ==> shown[k] == kept[k]);
    assert(forall|k: int| 0 <= k < at.len() ==> at[k] == all[k]);
    assert(shows_at(found, kind, shown, at));
    if shown.len() < limit {
        assert(shown == kept);
        assert forall|i: int|
            0 <= i < found.len() && text::same_ignoring_case((#[trigger] found[i]).0.kind@, kind)
                implies exists|k: int|
            0 <= k < shown.len() && stands_for(#[trigger] shown[k], found[i]) by {
            assert(all.contains(i));
            let k = choose|k: int| 0 <= k < all.len() && all[k] == i;
            assert(stands_for(shown[k], found[i]));
        }
    }
}

/// What a server answers when it is asked for a document's symbols.
pub enum DocumentSymbolResponse {
    /// A list, each symbol with the text of the document it is in.
    Flat(Vec<(SymbolInformation, DiagnosticSnapshot)>),
    /// A tree.
    Nested(Vec<DocumentSymbol>),
}

/// Whether `out` shows a listed symbol, which contains nothing and is selected
/// whole.
pub open spec fn shows_listed(found: (SymbolInformation, DiagnosticSnapshot), out: Symbol) -> bool {
    &&& out.name@ == found.0.name@
    &&& out.kind@ == found.0.kind@
    &&& out.range == range_in(found.1.deep_view(), found.0.range)
    &&& out.selection_range == out.range
    &&& out.children is None
}

/// Whether `out` shows the symbols of an answer, in order.
pub open spec fn shows_answer(
    response: Option<DocumentSymbolResponse>,
    source: SourceView,
    out: Seq<Symbol>,
) -> bool {
    match response {
        None => out.len() == 0,
        Some(DocumentSymbolResponse::Flat(list)) => out.len() == list@.len() && forall|i: int|
            0 <= i < out.len() ==> shows_listed(list@[i], #[trigger] out[i]),
        Some(DocumentSymbolResponse::Nested(list)) => out.len() == list@.len() && forall|i: int|
            0 <= i < out.len() ==> shows_symbol(source, list@[i], #[trigger] out[i]),
    }
}

/// The symbols of a document as they are shown, from a server's answer and the
/// document's text.
pub fn handle_document_symbols(
    response: &Option<DocumentSymbolResponse>,
    source: &DiagnosticSnapshot,
) -> (r: Vec<Symbol>)
    ensures
        shows_answer(*response, source.deep_view(), r@),
{
    let mut r: Vec<Symbol> = Vec::new();
    match response {
        None => {},
        Some(DocumentSymbolResponse::Flat(list)) => {
            let mut i: usize = 0;
            while i < list.len()
                invariant
                    i <= list.len(),
                    r.len() == i,
                    forall|j: int| 0 <= j < i ==> shows_listed(list@[j], #[trigger] r@[j]),
                decreases list.len() - i,
            {
                let (symbol, text) = &list[i];
                let range = text.normalize_range(symbol.range);
                r.push(
                    Symbol {
                        name: symbol.name.clone(),
                        kind: symbol.kind.clone(),
                        range,
                        selection_range: range,
                        children: None,
                    },
                );
                i = i + 1;
            }
        },
        Some(DocumentSymbolResponse::Nested(list)) => {
            let mut i: usize = 0;
            while i < list.len()
                invariant
                    i <= list.len(),
                    r.len() == i,
                    forall|j: int|
                        0 <= j < i ==> shows_symbol(
                            source.deep_view(),
                            list@[j],
                            #[trigger] r@[j],
                        ),
                decreases list.len() - i,
            {
                r.push(convert_document_symbol(&list[i], source));
                i = i + 1;
            }
        },
    }
    r
}

/// Why no server was found for a search.
#[derive(Clone, Copy, Debug, PartialEq, Eq, Structural)]
pub enum NoServerReason {
    /// None is registered.
    NothingRegistered,
    /// None of those that are answers searches.
    NoClaimant,
}

/// What to do with a server that was found for a search, or with none.
#[derive(Clone, Debug, PartialEq, Eq)]
pub enum Candidate {
    /// Ask it.
    Ask,
    /// Look for another: its command is missing.
    Exclude,
    /// Give up, with this error.
    Fail(Error),
}

/// What a [`Candidate`] stands for.
pub enum CandidateView {
    /// Ask it.
    Ask,
    /// Look for another: its command is missing.
    Exclude,
    /// Give up, with this error.
    Fail(ErrorView),
}

impl DeepView for Candidate {
    type V = CandidateView;

    open spec fn deep_view(&self) -> CandidateView {
        match self {
            Candidate::Ask => CandidateView::Ask,
            Candidate::Exclude => CandidateView::Exclude,
            Candidate::Fail(e) => CandidateView::Fail(e.deep_view()),
        }
    }
}

/// What to do with the server that routing gave for a search.
pub open spec fn judged_candidate(
    v: ServersView,
    resolved: Result<Seq<char>, NoServerReason>,
) -> CandidateView {
    match resolved {
        Err(NoServerReason::NothingRegistered) => CandidateView::Fail(
            if v.states == Map::<Seq<char>, ServerLifecycle>::empty() {
                ErrorView::NoServerConfigured
            } else {
                ErrorView::WorkspaceServersInitializing
            },
        ),
        Err(NoServerReason::NoClaimant) => CandidateView::Fail(
            ErrorView::NoServerForWorkspaceTool { tool: "workspace_symbols"@ },
        ),
        Ok(id) => if lifecycle::is_in(v, id, ServerLifecycle::NotInstalled) {
            CandidateView::Exclude
        } else {
            CandidateView::Ask
        },
    }
}

/// Why a server that was chosen has no client.
pub open spec fn missing_client(v: ServersView, id: Seq<char>) -> ErrorView {
    if lifecycle::is_in(v, id, ServerLifecycle::Idle) || lifecycle::is_in(
        v,
        id,
        ServerLifecycle::Starting,
    ) {
        ErrorView::ServerInitializing { server_id: id }
    } else if lifecycle::is_in(v, id, ServerLifecycle::NotInstalled) {
        ErrorView::ServerUnavailable { server_id: id, reason: "command not found"@ }
    } else if lifecycle::is_in(v, id, ServerLifecycle::Failed) {
        ErrorView::ServerUnavailable { server_id: id, reason: "failed to start"@ }
    } else {
        ErrorView::NoServerConfigured
    }
}

impl Translator {
    /// What to do with the server that routing gave for a search, or with the
    /// reason why it gave none.
    pub fn workspace_candidate(&self, resolved: Result<&ServerId, NoServerReason>) -> (r: Candidate)
        ensures
            r.deep_view() == judged_candidate(
                self@,
                match resolved {
                    Ok(id) => Ok(id@),
                    Err(reason) => Err(reason),
                },
            ),
    {
        match resolved {
            Err(NoServerReason::NothingRegistered) => {
                if self.lifecycles.is_empty() {
                    Candidate::Fail(Error::NoServerConfigured)
                } else {
                    Candidate::Fail(Error::WorkspaceServersInitializing)
                }
            },
            Err(NoServerReason::NoClaimant) => Candidate::Fail(
                Error::NoServerForWorkspaceTool { tool: "workspace_symbols".to_owned() },
            ),
            Ok(id) => match self.lifecycle_of(id) {
                Some(ServerLifecycle::NotInstalled) => Candidate::Exclude,
                _ => Candidate::Ask,
            },
        }
    }

    /// Why a server that was chosen has no client.
    pub fn missing_client_error(&self, id: &ServerId) -> (r: Error)
        ensures
            r.deep_view() == missing_client(self@, id@),
    {
        match self.lifecycle_of(id) {
            Some(ServerLifecycle::Idle) | Some(ServerLifecycle::Starting) =>
                Error::ServerInitializing { server_id: id.name.clone() },
            Some(ServerLifecycle::NotInstalled) => Error::ServerUnavailable {
                server_id: id.name.clone(),
                reason: "command not found".to_owned(),
            },
            Some(ServerLifecycle::Failed) => Error::ServerUnavailable {
                server_id: id.name.clone(),
                reason: "failed to start".to_owned(),
            },
            _ => Error::NoServerConfigured,
        }
    }
}

/// What a failure to start the chosen server is to a search.
pub open spec fn start_error(e: ErrorView) -> ErrorView {
    match e {
        ErrorView::ServerInitializing { .. } => ErrorView::WorkspaceServersInitializing,
        other => other,
    }
}

/// What a failure to start the chosen server is to a search.
pub fn search_error(error: Error) -> (r: Error)
    ensures
        r.deep_view() == start_error(error.deep_view()),
{
    match error {
        Error::ServerInitializing { .. } => Error::WorkspaceServersInitializing,
        other => other,
    }
}

} // verus!
