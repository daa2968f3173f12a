//! How places in a document are found and shown.

use crate::diagnostics;
use crate::diagnostics::{DiagnosticView, Position, Range};
use crate::encoding;
use crate::encoding::PositionEncoding;
use crate::error::ErrorView;
use crate::ledger::SourceView;
use crate::offsets;
use crate::reply;
use vstd::prelude::*;

verus! {

/// Whether a character lies beyond the sixteen-bit ones.
pub open spec fn wide(c: char) -> bool {
    c as int > 0xffff
}

/// A text takes a unit of thirty-two bits for each character, and a unit of
/// sixteen bits for each character and one more for each wide one.
pub proof fn law_what_a_text_takes(s: Seq<char>)
    ensures
        encoding::units(PositionEncoding::Utf32, s) == s.len(),
        encoding::units(PositionEncoding::Utf16, s) == s.len() + s.filter(
            |c: char| wide(c),
        ).len(),
    decreases s.len(),
{
    reveal(Seq::filter);
    if s.len() > 0 {
        law_what_a_text_takes(s.drop_last());
    }
}

/// A beginning of a text has the lines of the text before its own last one,
/// which is a beginning of the text's line at that place.
proof fn lemma_lines_of_a_beginning(text: Seq<char>, n: int)
    requires
        0 <= n <= text.len(),
    ensures
        ({
            let all = offsets::lines(text);
            let some = offsets::lines(text.take(n));
            let k = some.len() - 1;
            &&& 0 <= k < all.len()
            &&& forall|j: int| 0 <= j < k ==> #[trigger] some[j] == all[j]
            &&& some[k].is_prefix_of(all[k])
            &&& n == text.len() ==> some == all
            &&& n < text.len() && text[n] == '\n' ==> all[k] == some[k] && k + 1 < all.len()
            &&& n < text.len() && text[n] != '\n' ==> some[k].len() < all[k].len()
                && all[k][some[k].len() as int] == text[n]
        }),
    decreases text.len() - n,
{
    let all = offsets::lines(text);
    let some = offsets::lines(text.take(n));
    let k = some.len() - 1;
    offsets::law_lines_hold_no_newline(text);
    offsets::law_lines_hold_no_newline(text.take(n));
    if n == text.len() {
        assert(text.take(n) =~= text);
    } else {
        let longer = text.take(n + 1);
        assert(longer.drop_last() =~= text.take(n));
        assert(longer.last() == text[n]);
        lemma_lines_of_a_beginning(text, n + 1);
        let more = offsets::lines(longer);
        if text[n] == '\n' {
            assert(more == some.push(Seq::empty()));
            assert(more[k] == some[k]);
            assert(all[k] == more[k]);
            assert(some[k] =~= all[k].take(some[k].len() as int));
        } else {
            assert(more == some.drop_last().push(some.last().push(text[n])));
            assert(more[k] == some[k].push(text[n]));
            assert(more[k] =~= all[k].take(more[k].len() as int));
            assert(all[k][some[k].len() as int] == more[k][some[k].len() as int]);
            assert(some[k] =~= all[k].take(some[k].len() as int));
        }
        assert forall|j: int| 0 <= j < k implies #[trigger] some[j] == all[j] by {
            assert(more[j] == some[j]);
        }
    }
}

proof fn lemma_before_line(a: Seq<Seq<char>>, b: Seq<Seq<char>>, k: int)
    requires
        k <= a.len(),
        k <= b.len(),
        forall|j: int| 0 <= j < k ==> #[trigger] a[j] == b[j],
    ensures
        offsets::before_line(a, k) == offsets::before_line(b, k),
    decreases k,
{
    if k > 0 {
        lemma_before_line(a, b, k - 1);
        assert(a[k - 1] == b[k - 1]);
    }
}

/// The place of a boundary between two characters of a text, as a server counts
/// it: as many lines as end before it, and the units that its own line takes
/// before it.
pub open spec fn is_place_of(
    text: Seq<char>,
    n: int,
    position: Position,
    encoding: PositionEncoding,
) -> bool {
    let before = offsets::lines(text.take(n));
    position.line == before.len() - 1 && position.character == encoding::units(
        encoding,
        before.last(),
    )
}

/// The place of every boundary in a text is found: its offset is the bytes of
/// what stands before it.
pub proof fn law_every_boundary_is_found(
    text: Seq<char>,
    n: int,
    position: Position,
    encoding: PositionEncoding,
)
    requires
        0 <= n <= text.len(),
        is_place_of(text, n, position, encoding),
    ensures
        offsets::offset_of(text, position, encoding) == Ok::<nat, ErrorView>(
            encoding::units(PositionEncoding::Utf8, text.take(n)),
        ),
{
    let all = offsets::lines(text);
    let some = offsets::lines(text.take(n));
    let k = position.line as int;
    lemma_lines_of_a_beginning(text, n);
    offsets::law_lines_make_up_the_text(text.take(n));
    lemma_before_line(some, all, k);
    let line = all[k];
    let head = some[k];
    assert(head =~= line.take(head.len() as int));
    assert(encoding::lands_on(encoding, line, position.character as nat, head.len() as int));
    if position.character as nat >= encoding::units(encoding, line) {
        if head.len() < line.len() {
            encoding::lemma_units_grow(encoding, line, head.len() as int, line.len() as int);
            assert(line.take(line.len() as int) =~= line);
        }
        assert(head =~= line);
    } else {
        let m = choose|m: int|
            encoding::lands_on(encoding, line, position.character as nat, m);
        encoding::lemma_lands_once(
            encoding,
            line,
            position.character as nat,
            m,
            head.len() as int,
        );
    }
}

/// The offsets of a range between two boundaries of a text are those of the
/// boundaries, and a range that ends before it starts is refused.
pub proof fn law_a_range_is_found(
    text: Seq<char>,
    m: int,
    n: int,
    range: Range,
    encoding: PositionEncoding,
)
    requires
        0 <= m <= text.len(),
        0 <= n <= text.len(),
        is_place_of(text, m, range.start, encoding),
        is_place_of(text, n, range.end, encoding),
    ensures
        m <= n ==> offsets::range_of(text, range, encoding) == Ok::<(nat, nat), ErrorView>(
            (
                encoding::units(PositionEncoding::Utf8, text.take(m)),
                encoding::units(PositionEncoding::Utf8, text.take(n)),
            ),
        ),
        n < m ==> offsets::range_of(text, range, encoding) is Err,
{
    law_every_boundary_is_found(text, m, range.start, encoding);
    law_every_boundary_is_found(text, n, range.end, encoding);
    if m < n {
        encoding::lemma_units_grow(PositionEncoding::Utf8, text, m, n);
    }
    if n < m {
        encoding::lemma_units_grow(PositionEncoding::Utf8, text, n, m);
    }
}

/// The place of every boundary in a text is shown by its line and by the
/// sixteen-bit units before it on that line, both counted from one, however the
/// server counts. The boundaries inside a `\r\n` are left out.
pub proof fn law_every_boundary_is_shown(source: SourceView, n: int, position: Position)
    requires
        source.text is Some,
        0 <= n <= source.text->Some_0.len(),
        is_place_of(source.text->Some_0, n, position, source.encoding),
        position.line < u32::MAX,
        encoding::units(
            PositionEncoding::Utf16,
            offsets::lines(source.text->Some_0.take(n)).last(),
        ) < u32::MAX,
        0 < n < source.text->Some_0.len() ==> !(source.text->Some_0[n - 1] == '\r'
            && source.text->Some_0[n] == '\n'),
    ensures
        reply::position_in(source, position).line == position.line + 1,
        reply::position_in(source, position).character == encoding::units(
            PositionEncoding::Utf16,
            offsets::lines(source.text->Some_0.take(n)).last(),
        ) + 1,
{
    let text = source.text->Some_0;
    let all = offsets::lines(text);
    let some = offsets::lines(text.take(n));
    let k = position.line as int;
    lemma_lines_of_a_beginning(text, n);
    offsets::law_lines_hold_no_newline(text.take(n));
    let head = some[k];
    let line = all[k];
    assert(head =~= line.take(head.len() as int));
    match reply::line_at(text, position.line as nat) {
        None => {
            assert(k + 1 == all.len());
            assert(line.len() == 0);
            assert(head.len() == 0);
        },
        Some(shown) => {
            assert(head.len() <= shown.len()) by {
                if head.len() > shown.len() {
                    assert(shown == line.drop_last());
                    assert(head.len() == line.len());
                    assert(head.last() == '\r');
                    if n < text.len() && text[n] != '\n' {
                        assert(false);
                    }
                    if n == text.len() {
                        assert(k + 1 == all.len());
                        assert(false);
                    }
                    lemma_last_character(text.take(n));
                    assert(n > 0);
                    assert(text[n - 1] == '\r');
                }
            }
            assert(head =~= shown.take(head.len() as int));
            assert(encoding::lands_on(
                source.encoding,
                shown,
                position.character as nat,
                head.len() as int,
            ));
            let m = choose|m: int|
                encoding::lands_on(source.encoding, shown, position.character as nat, m);
            encoding::lemma_lands_once(
                source.encoding,
                shown,
                position.character as nat,
                m,
                head.len() as int,
            );
        },
    }
}

proof fn lemma_last_character(text: Seq<char>)
    requires
        offsets::lines(text).last().len() > 0,
    ensures
        text.len() > 0,
        text.last() == offsets::lines(text).last().last(),
{
    if text.len() == 0 {
        assert(offsets::lines(text)[0] =~= Seq::<char>::empty());
    }
}

/// Without the text of its document a place is shown as it was counted, only
/// from one.
pub proof fn law_a_place_without_text_counts_from_one(source: SourceView, position: Position)
    requires
        source.text is None,
    ensures
        reply::position_in(source, position).line == if position.line < u32::MAX {
            position.line + 1
        } else {
            u32::MAX as int
        },
        reply::position_in(source, position).character == if position.character < u32::MAX {
            position.character + 1
        } else {
            u32::MAX as int
        },
{
}

/// A diagnostic is shown with its message, its source and its code as they were
/// sent, at the places of its two ends. Its severity is kept where it is known,
/// and shown as information otherwise.
pub proof fn law_a_diagnostic_is_shown_as_sent(source: SourceView, d: DiagnosticView)
    ensures
        reply::shown(source, d).message == d.message,
        reply::shown(source, d).source == d.source,
        reply::shown(source, d).range.start == reply::position_in(source, d.range.start),
        reply::shown(source, d).range.end == reply::position_in(source, d.range.end),
        d.code is None <==> reply::shown(source, d).code is None,
        d.code matches Some(diagnostics::CodeView::Text(t)) ==> reply::shown(source, d).code
            == Some(t),
        d.code matches Some(diagnostics::CodeView::Number(n)) ==> reply::shown(source, d).code
            == Some(crate::text::int_text(n as int)),
        d.severity == Some(diagnostics::DiagnosticSeverity::Error) <==> reply::shown(
            source,
            d,
        ).severity == reply::DiagnosticSeverity::Error,
        d.severity == Some(diagnostics::DiagnosticSeverity::Warning) <==> reply::shown(
            source,
            d,
        ).severity == reply::DiagnosticSeverity::Warning,
        d.severity == Some(diagnostics::DiagnosticSeverity::Hint) <==> reply::shown(
            source,
            d,
        ).severity == reply::DiagnosticSeverity::Hint,
{
}

} // verus!
