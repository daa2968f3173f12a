//! What callers are shown: one-based positions, and diagnostics in words.

use crate::delivery::DiagnosticSnapshot;
use crate::diagnostics;
use crate::diagnostics::{DiagnosticCode, DiagnosticView, Position};
use crate::encoding;
use crate::encoding::{EncodingConverter, PositionEncoding};
use crate::ledger::SourceView;
use crate::offsets;
use crate::offsets::LineTable;
use crate::text;
use crate::text::{characters, signed_decimal};
use vstd::prelude::*;
use vstd::string::*;

verus! {

/// A place in a document, counted from one.
#[derive(Clone, Copy, Debug, PartialEq, Eq, Structural)]
pub struct Position2D {
    /// The line.
    pub line: u32,
    /// The column, in UTF-16 units.
    pub character: u32,
}

impl DeepView for Position2D {
    type V = Position2D;

    open spec fn deep_view(&self) -> Position2D {
        *self
    }
}

/// A stretch of a document, counted from one.
#[derive(Clone, Copy, Debug, PartialEq, Eq, Structural)]
pub struct Range {
    /// Its first place.
    pub start: Position2D,
    /// The place after its last.
    pub end: Position2D,
}

impl DeepView for Range {
    type V = Range;

    open spec fn deep_view(&self) -> Range {
        *self
    }
}

/// How bad a diagnostic is.
#[derive(Clone, Copy, Debug, PartialEq, Eq, Structural)]
pub enum DiagnosticSeverity {
    /// An error.
    Error,
    /// A warning.
    Warning,
    /// An information.
    Information,
    /// A hint.
    Hint,
}

impl DeepView for DiagnosticSeverity {
    type V = DiagnosticSeverity;

    open spec fn deep_view(&self) -> DiagnosticSeverity {
        *self
    }
}

/// A diagnostic as it is shown.
#[derive(Clone, Debug, PartialEq, Eq)]
pub struct Diagnostic {
    /// Where it applies.
    pub range: Range,
    /// How bad it is.
    pub severity: DiagnosticSeverity,
    /// What it says.
    pub message: String,
    /// Its code.
    pub code: Option<String>,
    /// The tool that found it.
    pub source: Option<String>,
}

/// What a shown [`Diagnostic`] stands for.
pub struct ShownView {
    /// Where it applies.
    pub range: Range,
    /// How bad it is.
    pub severity: DiagnosticSeverity,
    /// What it says.
    pub message: Seq<char>,
    /// Its code.
    pub code: Option<Seq<char>>,
    /// The tool that found it.
    pub source: Option<Seq<char>>,
}

impl DeepView for Diagnostic {
    type V = ShownView;

    open spec fn deep_view(&self) -> ShownView {
        ShownView {
            range: self.range,
            severity: self.severity,
            message: self.message@,
            code: self.code.deep_view(),
            source: self.source.deep_view(),
        }
    }
}

/// A line without the carriage return that ends it.
pub open spec fn without_return(line: Seq<char>) -> Seq<char> {
    if line.len() > 0 && line.last() == '\r' {
        line.drop_last()
    } else {
        line
    }
}

/// The text of the line at `n`, where the text has such a line: a terminated
/// line without its terminator, or what follows the last terminator.
pub open spec fn line_at(text: Seq<char>, n: nat) -> Option<Seq<char>> {
    let all = offsets::lines(text);
    if n + 1 < all.len() {
        Some(without_return(all[n as int]))
    } else if n + 1 == all.len() && all.last().len() > 0 {
        Some(all.last())
    } else {
        None
    }
}

/// One more than `n`, as far as the number goes.
pub open spec fn counted_from_one(n: nat) -> u32 {
    if n + 1 > u32::MAX {
        u32::MAX
    } else {
        (n + 1) as u32
    }
}

/// The UTF-16 column for a server's column. One that the line's text does not
/// settle is taken over as it is.
pub open spec fn shown_column(
    character: u32,
    line: Option<Seq<char>>,
    encoding: PositionEncoding,
) -> nat {
    match line {
        Some(l) => if exists|n: int| encoding::lands_on(encoding, l, character as nat, n) {
            let n = choose|n: int| encoding::lands_on(encoding, l, character as nat, n);
            encoding::units(PositionEncoding::Utf16, l.take(n))
        } else {
            character as nat
        },
        None => character as nat,
    }
}

/// A server's position as it is shown.
pub open spec fn shown_position(
    position: Position,
    line: Option<Seq<char>>,
    encoding: PositionEncoding,
) -> Position2D {
    Position2D {
        line: counted_from_one(position.line as nat),
        character: counted_from_one(shown_column(position.character, line, encoding)),
    }
}

/// A server's position, counted from one and in UTF-16 units.
pub fn lsp_to_mcp_position(
    position: Position,
    line: Option<&str>,
    encoding: PositionEncoding,
) -> (r: Position2D)
    ensures
        r == shown_position(
            position,
            match line {
                Some(l) => Some(l@),
                None => None,
            },
            encoding,
        ),
{
    let shown_line: u32 = if position.line < u32::MAX {
        position.line + 1
    } else {
        u32::MAX
    };
    let column: u64 = match line {
        Some(l) => {
            let chars = characters(l);
            let size: usize = l.as_bytes().len();
            proof {
                encoding::law_bytes_are_utf8(l@);
                assert(size == encoding::units(PositionEncoding::Utf8, l@));
            }
            let converter = EncodingConverter::new(encoding);
            match converter.characters_before(&chars, position.character) {
                Some(n) => {
                    let head = offsets::first_of(&chars, n);
                    proof {
                        let m = choose|m: int|
                            encoding::lands_on(encoding, l@, position.character as nat, m);
                        encoding::lemma_lands_once(
                            encoding,
                            l@,
                            position.character as nat,
                            m,
                            n as int,
                        );
                        assert(l@ =~= l@.take(n as int) + l@.skip(n as int));
                        encoding::lemma_units_add(
                            PositionEncoding::Utf8,
                            l@.take(n as int),
                            l@.skip(n as int),
                        );
                    }
                    EncodingConverter::new(PositionEncoding::Utf16).length(&head) as u64
                },
                None => position.character as u64,
            }
        },
        None => position.character as u64,
    };
    let shown_character: u32 = if column < u32::MAX as u64 {
        column as u32 + 1
    } else {
        u32::MAX
    };
    Position2D { line: shown_line, character: shown_character }
}

/// The position as a snapshot's text shows it.
pub open spec fn position_in(source: SourceView, position: Position) -> Position2D {
    shown_position(
        position,
        match source.text {
            Some(t) => line_at(t, position.line as nat),
            None => None,
        },
        source.encoding,
    )
}

/// A severity as it is shown: what is absent or unknown counts as information.
pub open spec fn shown_severity(
    severity: Option<diagnostics::DiagnosticSeverity>,
) -> DiagnosticSeverity {
    match severity {
        Some(diagnostics::DiagnosticSeverity::Error) => DiagnosticSeverity::Error,
        Some(diagnostics::DiagnosticSeverity::Warning) => DiagnosticSeverity::Warning,
        Some(diagnostics::DiagnosticSeverity::Hint) => DiagnosticSeverity::Hint,
        _ => DiagnosticSeverity::Information,
    }
}

/// A code in words.
pub open spec fn code_text(code: diagnostics::CodeView) -> Seq<char> {
    match code {
        diagnostics::CodeView::Number(n) => text::int_text(n as int),
        diagnostics::CodeView::Text(s) => s,
    }
}

/// A diagnostic as the text it was computed against shows it.
pub open spec fn shown(source: SourceView, d: DiagnosticView) -> ShownView {
    ShownView {
        range: Range {
            start: position_in(source, d.range.start),
            end: position_in(source, d.range.end),
        },
        severity: shown_severity(d.severity),
        message: d.message,
        code: match d.code {
            Some(code) => Some(code_text(code)),
            None => None,
        },
        source: d.source,
    }
}

fn line_text(text: &str, n: u32) -> (r: Option<String>)
    ensures
        r.deep_view() == line_at(text@, n as nat),
{
    let table = LineTable::new(text);
    match table.line(n) {
        Ok(line) => {
            let last = !table.has_line_after(n);
            if last {
                if line.len() == 0 {
                    return None;
                }
                return Some(text::text_of(&line));
            }
            if line.len() > 0 && line[line.len() - 1] == '\r' {
                let head = offsets::first_of(&line, line.len() - 1);
                assert(head@ =~= line@.drop_last());
                return Some(text::text_of(&head));
            }
            Some(text::text_of(&line))
        },
        Err(_) => None,
    }
}

impl DiagnosticSnapshot {
    pub(crate) fn position(&self, position: Position) -> (r: Position2D)
        ensures
            r == position_in(self.deep_view(), position),
    {
        let line = match &self.text {
            Some(text) => line_text(text, position.line),
            None => None,
        };
        match &line {
            Some(l) => lsp_to_mcp_position(position, Some(l.as_str()), self.encoding),
            None => lsp_to_mcp_position(position, None, self.encoding),
        }
    }

    /// The diagnostic as this text shows it.
    pub fn render(&self, diagnostic: &diagnostics::Diagnostic) -> (r: Diagnostic)
        ensures
            r.deep_view() == shown(self.deep_view(), diagnostic.deep_view()),
    {
        Diagnostic {
            range: Range {
                start: self.position(diagnostic.range.start),
                end: self.position(diagnostic.range.end),
            },
            severity: match diagnostic.severity {
                Some(diagnostics::DiagnosticSeverity::Error) => DiagnosticSeverity::Error,
                Some(diagnostics::DiagnosticSeverity::Warning) => DiagnosticSeverity::Warning,
                Some(diagnostics::DiagnosticSeverity::Hint) => DiagnosticSeverity::Hint,
                _ => DiagnosticSeverity::Information,
            },
            message: diagnostic.message.clone(),
            code: match &diagnostic.code {
                Some(DiagnosticCode::Number(n)) => Some(signed_decimal(*n)),
                Some(DiagnosticCode::Text(s)) => Some(s.clone()),
                None => None,
            },
            source: match &diagnostic.source {
                Some(s) => Some(s.clone()),
                None => None,
            },
        }
    }
}

/// A column that counts UTF-16 units already is only counted from one.
pub proof fn law_utf16_columns_are_kept(character: u32, line: Option<Seq<char>>)
    ensures
        shown_column(character, line, PositionEncoding::Utf16) == character,
{
}

} // verus!
