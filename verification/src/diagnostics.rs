//! Diagnostics as language servers publish them, and the hash of what a
//! reader is shown of them.

use crate::config::SeverityFloor;
use crate::text;
use crate::text::{decimal, sort_texts};
use vstd::prelude::*;
use vstd::string::*;

verus! {

/// A place in a document, counted from zero.
#[derive(Clone, Copy, Debug, PartialEq, Eq, Structural)]
pub struct Position {
    /// The line.
    pub line: u32,
    /// The column, in the code units that the server counts.
    pub character: u32,
}

/// A stretch of a document.
#[derive(Clone, Copy, Debug, PartialEq, Eq, Structural)]
pub struct Range {
    /// Its first place.
    pub start: Position,
    /// The place after its last.
    pub end: Position,
}

/// How bad a diagnostic is.
#[derive(Clone, Copy, Debug, PartialEq, Eq, Structural)]
pub enum DiagnosticSeverity {
    /// An error.
    Error,
    /// A warning.
    Warning,
    /// An information.
    Information,
    /// A hint.
    Hint,
    /// A number that stands for none of these.
    Other(i32),
}

/// The rank of a severity, from errors down. An absent or unknown one counts
/// as information.
pub open spec fn severity_degree(severity: Option<DiagnosticSeverity>) -> int {
    match severity {
        Some(DiagnosticSeverity::Error) => 1,
        Some(DiagnosticSeverity::Warning) => 2,
        Some(DiagnosticSeverity::Hint) => 4,
        _ => 3,
    }
}

/// The code of a diagnostic.
#[derive(Clone, Debug, PartialEq, Eq)]
pub enum DiagnosticCode {
    /// A number.
    Number(i32),
    /// A name.
    Text(String),
}

/// What a [`DiagnosticCode`] stands for.
pub enum CodeView {
    /// A number.
    Number(i32),
    /// A name.
    Text(Seq<char>),
}

impl DeepView for DiagnosticCode {
    type V = CodeView;

    open spec fn deep_view(&self) -> CodeView {
        match self {
            DiagnosticCode::Number(n) => CodeView::Number(*n),
            DiagnosticCode::Text(s) => CodeView::Text(s@),
        }
    }
}

/// One diagnostic.
#[derive(Clone, Debug, PartialEq, Eq)]
pub struct Diagnostic {
    /// Where it applies.
    pub range: Range,
    /// How bad it is.
    pub severity: Option<DiagnosticSeverity>,
    /// Its code.
    pub code: Option<DiagnosticCode>,
    /// The tool that found it.
    pub source: Option<String>,
    /// What it says.
    pub message: String,
}

/// What a [`Diagnostic`] stands for.
pub struct DiagnosticView {
    /// Where it applies.
    pub range: Range,
    /// How bad it is.
    pub severity: Option<DiagnosticSeverity>,
    /// Its code.
    pub code: Option<CodeView>,
    /// The tool that found it.
    pub source: Option<Seq<char>>,
    /// What it says.
    pub message: Seq<char>,
}

impl DeepView for Diagnostic {
    type V = DiagnosticView;

    open spec fn deep_view(&self) -> DiagnosticView {
        DiagnosticView {
            range: self.range,
            severity: self.severity,
            code: self.code.deep_view(),
            source: self.source.deep_view(),
            message: self.message@,
        }
    }
}

impl Diagnostic {
    /// A second diagnostic that says the same.
    pub fn dup(&self) -> (r: Self)
        ensures
            r.deep_view() == self.deep_view(),
    {
        Diagnostic {
            range: self.range,
            severity: self.severity,
            code: match &self.code {
                Some(DiagnosticCode::Number(n)) => Some(DiagnosticCode::Number(*n)),
                Some(DiagnosticCode::Text(s)) => Some(DiagnosticCode::Text(s.clone())),
                None => None,
            },
            source: match &self.source {
                Some(s) => Some(s.clone()),
                None => None,
            },
            message: self.message.clone(),
        }
    }
}

/// A second list of the same diagnostics.
pub fn dup_diagnostics(list: &[Diagnostic]) -> (r: Vec<Diagnostic>)
    ensures
        r.deep_view() == list.deep_view(),
{
    let mut r: Vec<Diagnostic> = Vec::new();
    let mut i: usize = 0;
    while i < list.len()
        invariant
            i <= list.len(),
            r.deep_view() == list.deep_view().take(i as int),
        decreases list.len() - i,
    {
        let ghost before = r.deep_view();
        let d = list[i].dup();
        let ghost v = d.deep_view();
        r.push(d);
        assert(r.deep_view() =~= before.push(v));
        assert(list.deep_view().take(i + 1) =~= list.deep_view().take(i as int).push(v));
        i = i + 1;
    }
    assert(list.deep_view().take(i as int) =~= list.deep_view());
    r
}

/// Of `list`, what passes `floor`.
pub open spec fn visible(list: Seq<DiagnosticView>, floor: SeverityFloor) -> Seq<DiagnosticView> {
    list.filter(|d: DiagnosticView| floor.passes(d.severity))
}

/// A severity as it is written into the hashed text.
pub open spec fn severity_text(severity: Option<DiagnosticSeverity>) -> Seq<char> {
    match severity {
        None => "None"@,
        Some(DiagnosticSeverity::Error) => "Some(Error)"@,
        Some(DiagnosticSeverity::Warning) => "Some(Warning)"@,
        Some(DiagnosticSeverity::Information) => "Some(Information)"@,
        Some(DiagnosticSeverity::Hint) => "Some(Hint)"@,
        Some(DiagnosticSeverity::Other(n)) => "Some(DiagnosticSeverity("@ + crate::text::int_text(
            n as int,
        ) + "))"@,
    }
}

/// One diagnostic as the text that is hashed: the range, the severity and the
/// message.
pub open spec fn part_text(d: DiagnosticView) -> Seq<char> {
    text::dec_text(d.range.start.line as nat) + ":"@ + text::dec_text(d.range.start.character as nat) + ":"@
        + text::dec_text(d.range.end.line as nat) + ":"@ + text::dec_text(d.range.end.character as nat) + ":"@
        + severity_text(d.severity) + ":"@ + d.message
}

/// The hash that std's default hasher gives a list of texts.
pub uninterp spec fn std_hash(parts: Seq<Seq<char>>) -> u64;

/// [`std::hash::BuildHasher::hash_one`] on a builder of
/// [`std::collections::hash_map::DefaultHasher`]. Every hasher that such a
/// builder makes starts out the same, so the result is taken to be a function
/// of the texts; which function it is, std leaves open.
#[verifier::external_body]
fn hash_texts(parts: &Vec<String>) -> (r: u64)
    ensures
        r == std_hash(parts.deep_view()),
{
    let builder = std::hash::BuildHasherDefault::<
        std::collections::hash_map::DefaultHasher,
    >::default();
    std::hash::BuildHasher::hash_one(&builder, parts)
}

/// The hash of what `floor` shows of `list`, whatever the order of `list`.
/// None when it shows nothing.
pub open spec fn hash_of(list: Seq<DiagnosticView>, floor: SeverityFloor) -> Option<u64> {
    let shown = visible(list, floor);
    if shown.len() == 0 {
        None
    } else {
        Some(
            std_hash(
                shown.map_values(|d: DiagnosticView| part_text(d)).sort_by(text::text_order()),
            ),
        )
    }
}

fn severity_name(severity: Option<DiagnosticSeverity>) -> (r: String)
    ensures
        r@ == severity_text(severity),
{
    match severity {
        None => "None".to_owned(),
        Some(DiagnosticSeverity::Error) => "Some(Error)".to_owned(),
        Some(DiagnosticSeverity::Warning) => "Some(Warning)".to_owned(),
        Some(DiagnosticSeverity::Information) => "Some(Information)".to_owned(),
        Some(DiagnosticSeverity::Hint) => "Some(Hint)".to_owned(),
        Some(DiagnosticSeverity::Other(n)) => {
            let mut r = "Some(DiagnosticSeverity(".to_owned();
            r.append(crate::text::signed_decimal(n).as_str());
            r.append("))");
            r
        },
    }
}

fn part(d: &Diagnostic) -> (r: String)
    ensures
        r@ == part_text(d.deep_view()),
{
    let mut r = decimal(d.range.start.line as u64);
    r.append(":");
    r.append(decimal(d.range.start.character as u64).as_str());
    r.append(":");
    r.append(decimal(d.range.end.line as u64).as_str());
    r.append(":");
    r.append(decimal(d.range.end.character as u64).as_str());
    r.append(":");
    r.append(severity_name(d.severity).as_str());
    r.append(":");
    r.append(d.message.as_str());
    r
}

/// Of `list`, what passes `floor`, in order.
pub fn visible_diagnostics(list: &[Diagnostic], floor: SeverityFloor) -> (r: Vec<Diagnostic>)
    ensures
        r.deep_view() == visible(list.deep_view(), floor),
{
    let mut r: Vec<Diagnostic> = Vec::new();
    let mut i: usize = 0;
    proof {
        assert(list.deep_view().take(0) =~= Seq::empty());
        reveal(Seq::filter);
        assert(r.deep_view() =~= visible(list.deep_view().take(0), floor));
    }
    while i < list.len()
        invariant
            i <= list.len(),
            r.deep_view() == visible(list.deep_view().take(i as int), floor),
        decreases list.len() - i,
    {
        let ghost before = r.deep_view();
        let ghost taken = list.deep_view().take(i as int);
        let ghost v = list.deep_view()[i as int];
        proof {
            assert(list.deep_view().take(i + 1) =~= taken.push(v));
            assert(taken.push(v).drop_last() =~= taken);
            reveal(Seq::filter);
        }
        if floor.admits(list[i].severity) {
            let d = list[i].dup();
            r.push(d);
            assert(r.deep_view() =~= before.push(v));
        }
        i = i + 1;
    }
    assert(list.deep_view().take(i as int) =~= list.deep_view());
    r
}

/// Hash what `floor` shows of `list`.
pub fn visible_hash(list: &[Diagnostic], floor: SeverityFloor) -> (r: Option<u64>)
    ensures
        r == hash_of(list.deep_view(), floor),
{
    let shown = visible_diagnostics(list, floor);
    if shown.len() == 0 {
        return None;
    }
    let ghost f = |d: DiagnosticView| part_text(d);
    let mut parts: Vec<String> = Vec::new();
    let mut i: usize = 0;
    while i < shown.len()
        invariant
            i <= shown.len(),
            f == (|d: DiagnosticView| part_text(d)),
            parts.deep_view() == shown.deep_view().take(i as int).map_values(f),
        decreases shown.len() - i,
    {
        let ghost before = parts.deep_view();
        let p = part(&shown[i]);
        let ghost v = p@;
        parts.push(p);
        assert(parts.deep_view() =~= before.push(v));
        assert(shown.deep_view().take(i + 1).map_values(f) =~= shown.deep_view().take(
            i as int,
        ).map_values(f).push(v));
        i = i + 1;
    }
    assert(shown.deep_view().take(i as int) =~= shown.deep_view());
    let sorted = sort_texts(parts);
    Some(hash_texts(&sorted))
}

} // verus!
