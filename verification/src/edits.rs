//! What may be written, what was written, and which code action is meant.

use crate::actions;
use crate::actions::{choose_title, Choice, CodeActionSelector, SelectorView};
use crate::error;
use crate::error::{Error, ErrorView};
use crate::shown_edits::{CodeAction, ResourceOperation, ResourceOperationView};
use crate::text;
use crate::text::decimal;
use vstd::prelude::*;
use vstd::string::*;

verus! {

/// The tools that can write to the working tree.
#[derive(Clone, Copy, Debug, PartialEq, Eq, Structural)]
pub enum ToolKind {
    /// Renaming a symbol.
    Rename,
    /// Formatting a document.
    FormatDocument,
    /// Applying a code action.
    CodeActions,
}

/// Which tools may write. By default none may.
#[derive(Clone, Copy, Debug, PartialEq, Eq, Structural)]
pub struct ApplyConfig {
    /// Whether renaming may.
    pub rename: bool,
    /// Whether formatting may.
    pub format_document: bool,
    /// Whether code actions may.
    pub code_actions: bool,
}

/// Whether a tool may write.
pub open spec fn permitted(config: ApplyConfig, tool: ToolKind) -> bool {
    match tool {
        ToolKind::Rename => config.rename,
        ToolKind::FormatDocument => config.format_document,
        ToolKind::CodeActions => config.code_actions,
    }
}

/// The error of a tool that may not write, which names the setting that would
/// let it.
pub open spec fn apply_disabled(tool_name: Seq<char>, config_key: Seq<char>) -> ErrorView {
    ErrorView::ApplyDisabled { tool: tool_name, config_key }
}

impl ApplyConfig {
    /// A configuration that lets no tool write.
    pub fn none() -> (r: Self)
        ensures
            forall|tool: ToolKind| !permitted(r, tool),
    {
        ApplyConfig { rename: false, format_document: false, code_actions: false }
    }

    /// Whether a tool may write.
    pub fn permits(&self, tool: ToolKind) -> (r: bool)
        ensures
            r == permitted(*self, tool),
    {
        match tool {
            ToolKind::Rename => self.rename,
            ToolKind::FormatDocument => self.format_document,
            ToolKind::CodeActions => self.code_actions,
        }
    }

    /// Fails where a tool may not write. Asked before any request is sent.
    pub fn applier_for(&self, tool: ToolKind, tool_name: &str, config_key: &str) -> (r: Result<
        (),
        Error,
    >)
        ensures
            error::failure(r) == if permitted(*self, tool) {
                None
            } else {
                Some(apply_disabled(tool_name@, config_key@))
            },
    {
        if self.permits(tool) {
            Ok(())
        } else {
            Err(
                Error::ApplyDisabled {
                    tool: tool_name.to_owned(),
                    config_key: config_key.to_owned(),
                },
            )
        }
    }
}

/// What one apply did to the working tree.
#[derive(Clone, Debug, PartialEq, Eq)]
pub struct ApplySummary {
    /// The files whose content was rewritten.
    pub files_changed: Vec<String>,
    /// The file-system operations that were performed.
    pub resource_operations: Vec<ResourceOperation>,
}

/// What an [`ApplySummary`] stands for.
pub struct SummaryView {
    /// The files whose content was rewritten.
    pub files_changed: Seq<Seq<char>>,
    /// The file-system operations that were performed.
    pub resource_operations: Seq<ResourceOperationView>,
}

impl DeepView for ApplySummary {
    type V = SummaryView;

    open spec fn deep_view(&self) -> SummaryView {
        SummaryView {
            files_changed: self.files_changed.deep_view(),
            resource_operations: self.resource_operations.deep_view(),
        }
    }
}

/// Whether an apply changed the working tree: it rewrote a file, or it made,
/// moved or removed one.
pub open spec fn changed(summary: SummaryView) -> bool {
    summary.files_changed.len() > 0 || summary.resource_operations.len() > 0
}

/// Whether an apply changed the working tree.
pub fn changed_the_tree(summary: &ApplySummary) -> (r: bool)
    ensures
        r == changed(summary.deep_view()),
{
    summary.files_changed.len() > 0 || summary.resource_operations.len() > 0
}

/// Everything that one request wrote: its own edit, and those that the command
/// it ran sent back.
#[derive(Clone, Debug, PartialEq, Eq)]
pub struct InboundEdits {
    /// Whether any of them changed the working tree.
    pub changed_the_tree: bool,
    /// The files whose content was rewritten.
    pub files_written: Vec<String>,
    /// The file-system operations that were performed.
    pub resource_operations: Vec<ResourceOperation>,
}

/// What an [`InboundEdits`] stands for.
#[verifier::ext_equal]
pub struct InboundView {
    /// Whether any of them changed the working tree.
    pub changed_the_tree: bool,
    /// The files whose content was rewritten.
    pub files_written: Seq<Seq<char>>,
    /// The file-system operations that were performed.
    pub resource_operations: Seq<ResourceOperationView>,
}

impl DeepView for InboundEdits {
    type V = InboundView;

    open spec fn deep_view(&self) -> InboundView {
        InboundView {
            changed_the_tree: self.changed_the_tree,
            files_written: self.files_written.deep_view(),
            resource_operations: self.resource_operations.deep_view(),
        }
    }
}

/// Nothing written.
pub open spec fn nothing_written() -> InboundView {
    InboundView {
        changed_the_tree: false,
        files_written: Seq::empty(),
        resource_operations: Seq::empty(),
    }
}

/// What was written once an apply is added to it.
pub open spec fn absorbed(written: InboundView, summary: SummaryView) -> InboundView {
    InboundView {
        changed_the_tree: written.changed_the_tree || changed(summary),
        files_written: written.files_written + summary.files_changed,
        resource_operations: written.resource_operations + summary.resource_operations,
    }
}

/// What was written by one apply after another.
pub open spec fn all_absorbed(written: InboundView, summaries: Seq<SummaryView>) -> InboundView
    decreases summaries.len(),
{
    if summaries.len() == 0 {
        written
    } else {
        absorbed(all_absorbed(written, summaries.drop_last()), summaries.last())
    }
}

impl InboundEdits {
    /// Nothing written.
    pub fn new() -> (r: Self)
        ensures
            r.deep_view() == nothing_written(),
    {
        let r = InboundEdits {
            changed_the_tree: false,
            files_written: Vec::new(),
            resource_operations: Vec::new(),
        };
        assert(r.deep_view() =~= nothing_written());
        r
    }

    /// Add what one apply did.
    pub fn absorb(&mut self, summary: &ApplySummary)
        ensures
            final(self).deep_view() == absorbed(old(self).deep_view(), summary.deep_view()),
    {
        let ghost start = self.deep_view();
        let ghost paths = summary.files_changed.deep_view();
        let ghost operations = summary.resource_operations.deep_view();
        if changed_the_tree(summary) {
            self.changed_the_tree = true;
        }
        let ghost either = self.changed_the_tree;
        let mut i: usize = 0;
        assert(paths.take(0) =~= Seq::<Seq<char>>::empty());
        while i < summary.files_changed.len()
            invariant
                i <= summary.files_changed.len(),
                paths == summary.files_changed.deep_view(),
                self.changed_the_tree == either,
                self.files_written.deep_view() == start.files_written + paths.take(i as int),
                self.resource_operations.deep_view() == start.resource_operations,
            decreases summary.files_changed.len() - i,
        {
            let ghost before = self.files_written.deep_view();
            self.files_written.push(summary.files_changed[i].clone());
            assert(self.files_written.deep_view() =~= before.push(paths[i as int]));
            assert(paths.take(i + 1) =~= paths.take(i as int).push(paths[i as int]));
            assert(before.push(paths[i as int]) =~= start.files_written + paths.take(i + 1));
            i = i + 1;
        }
        assert(paths.take(i as int) =~= paths);
        let mut j: usize = 0;
        assert(operations.take(0) =~= Seq::<ResourceOperationView>::empty());
        while j < summary.resource_operations.len()
            invariant
                j <= summary.resource_operations.len(),
                operations == summary.resource_operations.deep_view(),
                self.changed_the_tree == either,
                self.files_written.deep_view() == start.files_written + paths,
                self.resource_operations.deep_view() == start.resource_operations
                    + operations.take(j as int),
            decreases summary.resource_operations.len() - j,
        {
            let ghost before = self.resource_operations.deep_view();
            self.resource_operations.push(summary.resource_operations[j].dup());
            assert(self.resource_operations.deep_view() =~= before.push(operations[j as int]));
            assert(operations.take(j + 1) =~= operations.take(j as int).push(operations[j as int]));
            assert(before.push(operations[j as int]) =~= start.resource_operations
                + operations.take(j + 1));
            j = j + 1;
        }
        assert(operations.take(j as int) =~= operations);
        assert(self.deep_view() =~= absorbed(start, summary.deep_view()));
    }

    pub(crate) fn absorb_all(&mut self, summaries: &Vec<ApplySummary>)
        ensures
            final(self).deep_view() == all_absorbed(old(self).deep_view(), summaries.deep_view()),
    {
        let ghost start = self.deep_view();
        let ghost all = summaries.deep_view();
        let mut i: usize = 0;
        while i < summaries.len()
            invariant
                i <= summaries.len(),
                all == summaries.deep_view(),
                self.deep_view() == all_absorbed(start, all.take(i as int)),
            decreases summaries.len() - i,
        {
            assert(all.take(i + 1).drop_last() =~= all.take(i as int));
            assert(all.take(i + 1).last() == summaries@[i as int].deep_view());
            self.absorb(&summaries[i]);
            i = i + 1;
        }
        assert(all.take(i as int) =~= all);
    }
}

/// The words that std's `Debug` has for a text.
pub uninterp spec fn debug_text(s: Seq<char>) -> Seq<char>;

/// A text in quotes.
///
/// Calls the `Debug` of std's `str`. The contract claims that the result is a
/// function of the text; which characters are escaped, and how, is left to std.
#[verifier::external_body]
pub(crate) fn debug_words(s: &str) -> (r: String)
    ensures
        r@ == debug_text(s@),
{
    format!("{s:?}")
}

/// The message for a place beyond the list.
pub open spec fn out_of_range(index: usize, count: nat) -> Seq<char> {
    "action index "@ + text::dec_text(index as nat) + " is out of range: "@ + text::dec_text(count)
        + " actions available"@
}

/// The message for a place whose title is another by now.
pub open spec fn moved(index: usize, now: Seq<char>, expected: Seq<char>) -> Seq<char> {
    "action index "@ + text::dec_text(index as nat) + " is now "@ + now + ", not "@ + expected
        + ": the list changed since get_code_actions produced it, so read it again"@
}

/// The message for a title that no action has.
pub open spec fn not_titled(title: Seq<char>) -> Seq<char> {
    "no code action titled "@ + title
}

/// The message for a title that several actions have.
pub open spec fn ambiguous(title: Seq<char>) -> Seq<char> {
    "title "@ + title
        + " is ambiguous: more than one action shares it, select by index instead"@
}

/// The error for a place beyond the list.
pub fn out_of_range_error(index: usize, count: usize) -> (r: Error)
    ensures
        r.deep_view() == ErrorView::InvalidToolParams(out_of_range(index, count as nat)),
{
    let mut m = "action index ".to_owned();
    m.append(decimal(index as u64).as_str());
    m.append(" is out of range: ");
    m.append(decimal(count as u64).as_str());
    m.append(" actions available");
    Error::InvalidToolParams(m)
}

/// The error for a place whose title is another by now. Both titles are given
/// in quotes.
pub fn moved_error(index: usize, now: &str, expected: &str) -> (r: Error)
    ensures
        r.deep_view() == ErrorView::InvalidToolParams(moved(index, now@, expected@)),
{
    let mut m = "action index ".to_owned();
    m.append(decimal(index as u64).as_str());
    m.append(" is now ");
    m.append(now);
    m.append(", not ");
    m.append(expected);
    m.append(": the list changed since get_code_actions produced it, so read it again");
    Error::InvalidToolParams(m)
}

/// The error for a title that no action has. The title is given in quotes.
pub fn not_titled_error(title: &str) -> (r: Error)
    ensures
        r.deep_view() == ErrorView::InvalidToolParams(not_titled(title@)),
{
    Error::InvalidToolParams(text::joined("no code action titled ", title))
}

/// The error for a title that several actions have. The title is given in
/// quotes.
pub fn ambiguous_error(title: &str) -> (r: Error)
    ensures
        r.deep_view() == ErrorView::InvalidToolParams(ambiguous(title@)),
{
    let mut m = "title ".to_owned();
    m.append(title);
    m.append(" is ambiguous: more than one action shares it, select by index instead");
    Error::InvalidToolParams(m)
}

/// The titles of a list of actions.
pub open spec fn titles_of(actions: Seq<CodeAction>) -> Seq<Seq<char>> {
    actions.map_values(|a: CodeAction| a.title@)
}

/// What a selector is answered with on a list of titles: a place, or an error.
pub open spec fn selected(titles: Seq<Seq<char>>, selector: SelectorView) -> Result<
    usize,
    ErrorView,
> {
    match selector {
        SelectorView::Index(index) => if index < titles.len() {
            Ok(index)
        } else {
            Err(ErrorView::InvalidToolParams(out_of_range(index, titles.len())))
        },
        SelectorView::ConfirmedIndex { index, title } => if index >= titles.len() {
            Err(ErrorView::InvalidToolParams(out_of_range(index, titles.len())))
        } else if titles[index as int] != title {
            Err(
                ErrorView::InvalidToolParams(
                    moved(index, debug_text(titles[index as int]), debug_text(title)),
                ),
            )
        } else {
            Ok(index)
        },
        SelectorView::Title(title) => if actions::twice_titled(titles, title) {
            Err(ErrorView::InvalidToolParams(ambiguous(debug_text(title))))
        } else if exists|i: int| actions::titled(titles, title, i) {
            Ok((choose|i: int| actions::titled(titles, title, i)) as usize)
        } else {
            Err(ErrorView::InvalidToolParams(not_titled(debug_text(title))))
        },
    }
}

pub(crate) fn answer_for(titles: &Vec<&str>, selector: &CodeActionSelector) -> (r: Result<usize, Error>)
    ensures
        match r {
            Ok(index) => index < titles.len() && selected(
                actions::texts(titles@),
                selector.deep_view(),
            ) == Ok::<usize, ErrorView>(index),
            Err(e) => selected(actions::texts(titles@), selector.deep_view()) == Err::<
                usize,
                ErrorView,
            >(e.deep_view()),
        },
{
    let choice = choose_title(titles, selector);
    let ghost all = actions::texts(titles@);
    proof {
        if let (Choice::Chosen(i), SelectorView::Title(title)) = (choice, selector.deep_view()) {
            assert(actions::titled(all, title, i as int));
        }
    }
    match (choice, selector) {
        (Choice::Chosen(index), _) => Ok(index),
        (_, CodeActionSelector::Index(index)) => Err(out_of_range_error(*index, titles.len())),
        (Choice::Moved, CodeActionSelector::ConfirmedIndex { index, title }) => {
            let now = debug_words(titles[*index]);
            let expected = debug_words(title.as_str());
            Err(moved_error(*index, now.as_str(), expected.as_str()))
        },
        (_, CodeActionSelector::ConfirmedIndex { index, .. }) => Err(
            out_of_range_error(*index, titles.len()),
        ),
        (Choice::Ambiguous, CodeActionSelector::Title(title)) => {
            let quoted = debug_words(title.as_str());
            Err(ambiguous_error(quoted.as_str()))
        },
        (_, CodeActionSelector::Title(title)) => {
            let quoted = debug_words(title.as_str());
            Err(not_titled_error(quoted.as_str()))
        },
    }
}

/// The action at a place, or an error that says how many there are.
pub fn action_at(actions: &Vec<CodeAction>, index: usize) -> (r: Result<&CodeAction, Error>)
    ensures
        match r {
            Ok(action) => index < actions.len() && *action == actions@[index as int],
            Err(e) => index >= actions.len() && e.deep_view() == ErrorView::InvalidToolParams(
                out_of_range(index, actions@.len()),
            ),
        },
{
    if index < actions.len() {
        Ok(&actions[index])
    } else {
        Err(out_of_range_error(index, actions.len()))
    }
}

/// Pick the action that `selector` names.
pub fn select_action<'a>(actions: &'a Vec<CodeAction>, selector: &CodeActionSelector) -> (r: Result<
    &'a CodeAction,
    Error,
>)
    ensures
        match (r, selected(titles_of(actions@), selector.deep_view())) {
            (Ok(action), Ok(index)) => index < actions.len() && *action == actions@[index as int],
            (Err(e), Err(expected)) => e.deep_view() == expected,
            _ => false,
        },
{
    let mut titles: Vec<&str> = Vec::new();
    let mut i: usize = 0;
    while i < actions.len()
        invariant
            i <= actions.len(),
            titles.len() == i,
            forall|j: int| 0 <= j < i ==> (#[trigger] titles@[j])@ == actions@[j].title@,
        decreases actions.len() - i,
    {
        titles.push(actions[i].title.as_str());
        i = i + 1;
    }
    assert(actions::texts(titles@) =~= titles_of(actions@));
    match answer_for(&titles, selector) {
        Ok(index) => action_at(actions, index),
        Err(e) => Err(e),
    }
}

/// A tool may write exactly where its own setting says so; the settings of the
/// other tools do not matter to it.
pub proof fn law_each_tool_has_its_own_permission(config: ApplyConfig, other: ApplyConfig)
    ensures
        permitted(config, ToolKind::Rename) <==> config.rename,
        permitted(config, ToolKind::FormatDocument) <==> config.format_document,
        permitted(config, ToolKind::CodeActions) <==> config.code_actions,
        config.rename == other.rename ==> permitted(config, ToolKind::Rename) == permitted(
            other,
            ToolKind::Rename,
        ),
{
}

/// The titles of a list of actions are the actions' own, in their order.
pub proof fn law_titles_are_the_actions_own(actions: Seq<CodeAction>, i: int)
    requires
        0 <= i < actions.len(),
    ensures
        titles_of(actions).len() == actions.len(),
        titles_of(actions)[i] == actions[i].title@,
{
}

} // verus!
