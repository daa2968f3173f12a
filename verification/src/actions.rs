//! Which code action a caller means, and whether a request for one is in order.

use crate::encoding;
use crate::encoding::PositionEncoding;
use crate::error;
use crate::error::{Error, ErrorView};
use crate::text;
use crate::text::{decimal, eq_ignoring_case, same_text};
use vstd::prelude::*;
use vstd::string::*;

verus! {

/// The largest line or column that a request can name.
pub const MAX_POSITION_VALUE: u32 = 1_000_000;

/// The most lines that a request can span.
pub const MAX_RANGE_LINES: u32 = 10_000;

/// The longest new name, in bytes.
pub const MAX_NEW_NAME_LENGTH: usize = 1000;

/// The kinds that code actions can be narrowed to.
pub open spec fn action_kinds() -> Seq<Seq<char>> {
    seq![
        "quickfix"@,
        "refactor"@,
        "refactor.extract"@,
        "refactor.inline"@,
        "refactor.rewrite"@,
        "source"@,
        "source.organizeImports"@,
    ]
}

/// Those kinds as messages list them.
pub open spec fn action_kinds_text() -> Seq<char> {
    "[\"quickfix\", \"refactor\", \"refactor.extract\", \"refactor.inline\", \"refactor.rewrite\", \"source\", \"source.organizeImports\"]"@
}

/// Whether a kind is one of those, whatever its case.
pub open spec fn known_action_kind(kind: Seq<char>) -> bool {
    exists|i: int|
        0 <= i < action_kinds().len() && text::same_ignoring_case(
            #[trigger] action_kinds()[i],
            kind,
        )
}

/// The first of the things that can be wrong with the range and the kind of a
/// request for code actions.
pub open spec fn action_params_error(
    start_line: u32,
    start_character: u32,
    end_line: u32,
    end_character: u32,
    kind: Option<Seq<char>>,
) -> Option<ErrorView> {
    if kind is Some && !known_action_kind(kind->Some_0) {
        Some(
            ErrorView::InvalidToolParams(
                "Invalid kind_filter: '"@ + kind->Some_0 + "'. Valid values: "@
                    + action_kinds_text(),
            ),
        )
    } else if start_line < 1 || start_character < 1 || end_line < 1 || end_character < 1 {
        Some(ErrorView::InvalidToolParams("Line and character positions must be >= 1"@))
    } else if start_line > MAX_POSITION_VALUE || start_character > MAX_POSITION_VALUE || end_line
        > MAX_POSITION_VALUE || end_character > MAX_POSITION_VALUE {
        Some(ErrorView::InvalidToolParams("Position values must be <= 1000000"@))
    } else if end_line - start_line > MAX_RANGE_LINES {
        Some(ErrorView::InvalidToolParams("Range size must be <= 10000 lines"@))
    } else if start_line > end_line || (start_line == end_line && start_character
        > end_character) {
        Some(
            ErrorView::InvalidToolParams("Start position must be before or equal to end position"@),
        )
    } else {
        None
    }
}

fn action_kind_names() -> (r: Vec<&'static str>)
    ensures
        r.len() == action_kinds().len(),
        forall|i: int| 0 <= i < r.len() ==> (#[trigger] r[i])@ == action_kinds()[i],
{
    vec![
        "quickfix",
        "refactor",
        "refactor.extract",
        "refactor.inline",
        "refactor.rewrite",
        "source",
        "source.organizeImports",
    ]
}

fn is_known_action_kind(kind: &str) -> (r: bool)
    ensures
        r == known_action_kind(kind@),
{
    let names = action_kind_names();
    let mut i: usize = 0;
    while i < names.len()
        invariant
            i <= names.len(),
            names.len() == action_kinds().len(),
            forall|j: int| 0 <= j < names.len() ==> (#[trigger] names[j])@ == action_kinds()[j],
            forall|j: int|
                0 <= j < i ==> !text::same_ignoring_case(#[trigger] action_kinds()[j], kind@),
        decreases names.len() - i,
    {
        assert(names[i as int]@ == action_kinds()[i as int]);
        if eq_ignoring_case(names[i], kind) {
            return true;
        }
        i = i + 1;
    }
    false
}

/// Validate the range and the kind of a request for code actions.
pub fn validate_code_action_params(
    start_line: u32,
    start_character: u32,
    end_line: u32,
    end_character: u32,
    kind_filter: Option<&str>,
) -> (r: Result<(), Error>)
    ensures
        error::failure(r) == action_params_error(
            start_line,
            start_character,
            end_line,
            end_character,
            match kind_filter {
                Some(k) => Some(k@),
                None => None,
            },
        ),
{
    if let Some(kind) = kind_filter {
        if !is_known_action_kind(kind) {
            let mut m = "Invalid kind_filter: '".to_owned();
            m.append(kind);
            m.append("'. Valid values: ");
            m.append(
                "[\"quickfix\", \"refactor\", \"refactor.extract\", \"refactor.inline\", \"refactor.rewrite\", \"source\", \"source.organizeImports\"]",
            );
            return Err(Error::InvalidToolParams(m));
        }
    }
    if start_line < 1 || start_character < 1 || end_line < 1 || end_character < 1 {
        return Err(Error::InvalidToolParams("Line and character positions must be >= 1".to_owned()));
    }
    if start_line > MAX_POSITION_VALUE || start_character > MAX_POSITION_VALUE || end_line
        > MAX_POSITION_VALUE || end_character > MAX_POSITION_VALUE {
        return Err(Error::InvalidToolParams("Position values must be <= 1000000".to_owned()));
    }
    if end_line > start_line && end_line - start_line > MAX_RANGE_LINES {
        return Err(Error::InvalidToolParams("Range size must be <= 10000 lines".to_owned()));
    }
    if start_line > end_line || (start_line == end_line && start_character > end_character) {
        return Err(
            Error::InvalidToolParams(
                "Start position must be before or equal to end position".to_owned(),
            ),
        );
    }
    Ok(())
}

/// What is wrong with a new name, if anything.
pub open spec fn rename_params_error(new_name: Seq<char>) -> Option<ErrorView> {
    let size = encoding::units(PositionEncoding::Utf8, new_name);
    if size > MAX_NEW_NAME_LENGTH {
        Some(
            ErrorView::InvalidToolParams(
                "new_name too long: "@ + text::dec_text(size) + " bytes (max 1000)"@,
            ),
        )
    } else {
        None
    }
}

/// Validate the new name of a symbol.
pub fn validate_rename_params(new_name: &str) -> (r: Result<(), Error>)
    ensures
        error::failure(r) == rename_params_error(new_name@),
{
    let size: usize = new_name.as_bytes().len();
    proof {
        encoding::law_bytes_are_utf8(new_name@);
    }
    if size > MAX_NEW_NAME_LENGTH {
        let mut m = "new_name too long: ".to_owned();
        m.append(decimal(size as u64).as_str());
        m.append(" bytes (max 1000)");
        return Err(Error::InvalidToolParams(m));
    }
    Ok(())
}

/// How a caller names the code action to apply.
#[derive(Clone, Debug, PartialEq, Eq)]
pub enum CodeActionSelector {
    /// Its place in the list.
    Index(usize),
    /// Its title, which no other action may have.
    Title(String),
    /// Its place, and the title that the caller read there.
    ConfirmedIndex {
        /// The place.
        index: usize,
        /// The title.
        title: String,
    },
}

/// What a [`CodeActionSelector`] stands for.
pub enum SelectorView {
    /// Its place in the list.
    Index(usize),
    /// Its title, which no other action may have.
    Title(Seq<char>),
    /// Its place, and the title that the caller read there.
    ConfirmedIndex {
        /// The place.
        index: usize,
        /// The title.
        title: Seq<char>,
    },
}

impl DeepView for CodeActionSelector {
    type V = SelectorView;

    open spec fn deep_view(&self) -> SelectorView {
        match self {
            CodeActionSelector::Index(index) => SelectorView::Index(*index),
            CodeActionSelector::Title(title) => SelectorView::Title(title@),
            CodeActionSelector::ConfirmedIndex { index, title } => SelectorView::ConfirmedIndex {
                index: *index,
                title: title@,
            },
        }
    }
}

/// The selector that a place and a title give, of which one may be missing.
pub open spec fn selector(index: Option<usize>, title: Option<Seq<char>>) -> Result<
    SelectorView,
    ErrorView,
> {
    match (index, title) {
        (Some(index), None) => Ok(SelectorView::Index(index)),
        (None, Some(title)) => Ok(SelectorView::Title(title)),
        (Some(index), Some(title)) => Ok(SelectorView::ConfirmedIndex { index, title }),
        (None, None) => Err(
            ErrorView::InvalidToolParams(
                "give one of action_index or action_title to name the action to apply"@,
            ),
        ),
    }
}

/// Narrow a request's two optional fields to a selector.
pub fn selector_from_params(action_index: Option<usize>, action_title: Option<String>) -> (r: Result<
    CodeActionSelector,
    Error,
>)
    ensures
        error::outcome(r) == selector(action_index, action_title.deep_view()),
{
    match (action_index, action_title) {
        (Some(index), None) => Ok(CodeActionSelector::Index(index)),
        (None, Some(title)) => Ok(CodeActionSelector::Title(title)),
        (Some(index), Some(title)) => Ok(CodeActionSelector::ConfirmedIndex { index, title }),
        (None, None) => Err(
            Error::InvalidToolParams(
                "give one of action_index or action_title to name the action to apply".to_owned(),
            ),
        ),
    }
}

/// What a selector comes to on a list of titles.
#[derive(Clone, Copy, Debug, PartialEq, Eq, Structural)]
pub enum Choice {
    /// The action at this place.
    Chosen(usize),
    /// There is no such place.
    OutOfRange,
    /// The place carries another title.
    Moved,
    /// No action carries the title.
    NotFound,
    /// More than one action carries the title.
    Ambiguous,
}

/// Whether `i` is a place whose title is `title`.
pub open spec fn titled(titles: Seq<Seq<char>>, title: Seq<char>, i: int) -> bool {
    0 <= i < titles.len() && titles[i] == title
}

/// Whether two places have that title.
pub open spec fn twice_titled(titles: Seq<Seq<char>>, title: Seq<char>) -> bool {
    exists|i: int, j: int|
        i < j && #[trigger] titled(titles, title, i) && #[trigger] titled(titles, title, j)
}

/// Whether `choice` is what the selector comes to.
pub open spec fn chooses(titles: Seq<Seq<char>>, selector: SelectorView, choice: Choice) -> bool {
    match selector {
        SelectorView::Index(index) => choice == if index < titles.len() {
            Choice::Chosen(index)
        } else {
            Choice::OutOfRange
        },
        SelectorView::ConfirmedIndex { index, title } => choice == if index >= titles.len() {
            Choice::OutOfRange
        } else if titles[index as int] == title {
            Choice::Chosen(index)
        } else {
            Choice::Moved
        },
        SelectorView::Title(title) => match choice {
            Choice::Chosen(index) => forall|i: int| titled(titles, title, i) <==> i == index,
            Choice::NotFound => forall|i: int| !titled(titles, title, i),
            Choice::Ambiguous => twice_titled(titles, title),
            _ => false,
        },
    }
}

/// What a list of texts stands for.
pub open spec fn texts(list: Seq<&str>) -> Seq<Seq<char>> {
    list.map_values(|t: &str| t@)
}

/// The choice that a selector comes to on a list of titles.
pub fn choose_title(titles: &Vec<&str>, selector: &CodeActionSelector) -> (r: Choice)
    ensures
        chooses(texts(titles@), selector.deep_view(), r),
{
    let ghost all = texts(titles@);
    match selector {
        CodeActionSelector::Index(index) => if *index < titles.len() {
            Choice::Chosen(*index)
        } else {
            Choice::OutOfRange
        },
        CodeActionSelector::ConfirmedIndex { index, title } => if *index >= titles.len() {
            Choice::OutOfRange
        } else if same_text(titles[*index], title.as_str()) {
            Choice::Chosen(*index)
        } else {
            Choice::Moved
        },
        CodeActionSelector::Title(title) => {
            let mut found: Option<usize> = None;
            let mut i: usize = 0;
            while i < titles.len()
                invariant
                    i <= titles.len(),
                    all == texts(titles@),
                    selector.deep_view() == SelectorView::Title(title@),
                    match found {
                        None => forall|j: int| 0 <= j < i ==> !titled(all, title@, j),
                        Some(n) => n < i && forall|j: int|
                            0 <= j < i ==> (titled(all, title@, j) <==> j == n),
                    },
                decreases titles.len() - i,
            {
                if same_text(titles[i], title.as_str()) {
                    assert(titled(all, title@, i as int));
                    if let Some(n) = found {
                        assert(titled(all, title@, n as int));
                        assert(twice_titled(all, title@));
                        return Choice::Ambiguous;
                    }
                    found = Some(i);
                }
                i = i + 1;
            }
            match found {
                Some(n) => Choice::Chosen(n),
                None => Choice::NotFound,
            }
        },
    }
}

/// A selector comes to one choice only.
pub proof fn law_a_selector_means_one_action(
    titles: Seq<Seq<char>>,
    selector: SelectorView,
    a: Choice,
    b: Choice,
)
    requires
        chooses(titles, selector, a),
        chooses(titles, selector, b),
    ensures
        a == b,
{
    if let SelectorView::Title(title) = selector {
        if let Choice::Chosen(i) = a {
            assert(titled(titles, title, i as int));
        }
        if let Choice::Chosen(j) = b {
            assert(titled(titles, title, j as int));
        }
    }
}

/// An action that was confirmed by its title is never another one.
pub proof fn law_a_confirmed_index_keeps_its_title(
    titles: Seq<Seq<char>>,
    index: usize,
    title: Seq<char>,
    chosen: usize,
)
    requires
        chooses(titles, SelectorView::ConfirmedIndex { index, title }, Choice::Chosen(chosen)),
    ensures
        chosen == index,
        chosen < titles.len(),
        titles[chosen as int] == title,
{
}

} // verus!
