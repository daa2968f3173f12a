//! Resolving positions to byte offsets in a document.

use crate::diagnostics::{Position, Range};
use crate::encoding;
use crate::encoding::{EncodingConverter, PositionEncoding};
use crate::error::{Error, ErrorView};
use crate::text;
use crate::text::{characters, decimal};
use vstd::prelude::*;
use vstd::string::*;

verus! {

/// The lines of a text, split at `\n` only. A `\r` stays part of its line, and
/// a text that ends in `\n` has one empty line more.
pub open spec fn lines(text: Seq<char>) -> Seq<Seq<char>>
    decreases text.len(),
{
    if text.len() == 0 {
        seq![Seq::<char>::empty()]
    } else {
        let before = lines(text.drop_last());
        if text.last() == '\n' {
            before.push(Seq::empty())
        } else {
            before.drop_last().push(before.last().push(text.last()))
        }
    }
}

/// What stands before the line at `k`.
pub open spec fn before_line(all: Seq<Seq<char>>, k: int) -> Seq<char>
    decreases k,
{
    if k <= 0 {
        Seq::empty()
    } else {
        before_line(all, k - 1) + all[k - 1].push('\n')
    }
}

/// Why a line past the end is refused.
pub open spec fn beyond_message(line: u32, count: nat) -> Seq<char> {
    "line "@ + text::dec_text(line as nat) + " is beyond the document, which has "@ + text::dec_text(
        count,
    ) + " lines"@
}

/// Why a column inside a character is refused.
pub open spec fn boundary_message(position: Position) -> Seq<char> {
    "column "@ + text::dec_text(position.character as nat) + " on line "@ + text::dec_text(
        position.line as nat,
    ) + ": not a character boundary"@
}

/// What stands before `position`, with columns counted in `encoding`: a column
/// past the end of its line is the line's end.
pub open spec fn before_position(
    all: Seq<Seq<char>>,
    position: Position,
    encoding: PositionEncoding,
) -> Result<Seq<char>, ErrorView> {
    if position.line >= all.len() {
        Err(ErrorView::ApplyRefused(beyond_message(position.line, all.len())))
    } else {
        let line = all[position.line as int];
        let column = position.character as nat;
        if column >= encoding::units(encoding, line) {
            Ok(before_line(all, position.line as int) + line)
        } else if exists|n: int| encoding::lands_on(encoding, line, column, n) {
            let n = choose|n: int| encoding::lands_on(encoding, line, column, n);
            Ok(before_line(all, position.line as int) + line.take(n))
        } else {
            Err(ErrorView::ApplyRefused(boundary_message(position)))
        }
    }
}

/// The byte offset of `position`: the bytes of what stands before it.
pub open spec fn offset_of(
    text: Seq<char>,
    position: Position,
    encoding: PositionEncoding,
) -> Result<nat, ErrorView> {
    match before_position(lines(text), position, encoding) {
        Ok(before) => Ok(encoding::units(PositionEncoding::Utf8, before)),
        Err(e) => Err(e),
    }
}

/// Why a range that ends before it starts is refused.
pub open spec fn inverted_message(start: nat, end: nat) -> Seq<char> {
    "range end "@ + text::dec_text(end) + " precedes start "@ + text::dec_text(start)
}

/// The byte offsets of a range's two ends.
pub open spec fn range_of(
    text: Seq<char>,
    range: Range,
    encoding: PositionEncoding,
) -> Result<(nat, nat), ErrorView> {
    match offset_of(text, range.start, encoding) {
        Err(e) => Err(e),
        Ok(start) => match offset_of(text, range.end, encoding) {
            Err(e) => Err(e),
            Ok(end) => if end < start {
                Err(ErrorView::ApplyRefused(inverted_message(start, end)))
            } else {
                Ok((start, end))
            },
        },
    }
}

/// A text has a line, and none of its lines holds a `\n`.
pub proof fn law_lines_hold_no_newline(text: Seq<char>)
    ensures
        lines(text).len() > 0,
        forall|k: int|
            0 <= k < lines(text).len() ==> !(#[trigger] lines(text)[k]).contains('\n'),
    decreases text.len(),
{
    if text.len() > 0 {
        law_lines_hold_no_newline(text.drop_last());
        let before = lines(text.drop_last());
        let all = lines(text);
        assert forall|k: int| 0 <= k < all.len() implies !(#[trigger] all[k]).contains('\n') by {
            if k < before.len() - 1 || (text.last() == '\n' && k < before.len()) {
                assert(all[k] == before[k]);
            } else if text.last() != '\n' {
                let line = all[k];
                assert(line == before.last().push(text.last()));
                if line.contains('\n') {
                    let j = choose|j: int| 0 <= j < line.len() && line[j] == '\n';
                    assert(before.last()[j] == '\n');
                    assert(before[before.len() - 1].contains('\n'));
                }
            }
        }
    } else {
        assert(lines(text)[0] =~= Seq::<char>::empty());
    }
}

proof fn lemma_before_line_prefix(a: Seq<Seq<char>>, b: Seq<Seq<char>>, k: int)
    requires
        k <= a.len(),
        k <= b.len(),
        forall|j: int| 0 <= j < k ==> a[j] == b[j],
    ensures
        before_line(a, k) == before_line(b, k),
    decreases k,
{
    if k > 0 {
        lemma_before_line_prefix(a, b, k - 1);
    }
}

/// The lines put together again, with a `\n` after all but the last, are the
/// text.
pub proof fn law_lines_make_up_the_text(text: Seq<char>)
    ensures
        lines(text).len() > 0,
        before_line(lines(text), lines(text).len() - 1) + lines(text).last() == text,
    decreases text.len(),
{
    let all = lines(text);
    if text.len() == 0 {
        assert(before_line(all, 0) + all.last() =~= text);
    } else {
        let start = text.drop_last();
        let before = lines(start);
        law_lines_make_up_the_text(start);
        assert(text =~= start.push(text.last()));
        if text.last() == '\n' {
            lemma_before_line_prefix(all, before, before.len() - 1);
            assert(all[before.len() - 1] == before.last());
            assert(before_line(all, all.len() - 1) + all.last() =~= text);
        } else {
            lemma_before_line_prefix(all, before, before.len() - 1);
            assert(before_line(all, all.len() - 1) + all.last() =~= text);
        }
    }
}

proof fn lemma_line_is_in_the_text(text: Seq<char>, k: int)
    requires
        0 <= k < lines(text).len(),
    ensures
        (before_line(lines(text), k) + lines(text)[k]).is_prefix_of(text),
    decreases lines(text).len() - k,
{
    let all = lines(text);
    law_lines_make_up_the_text(text);
    let here = before_line(all, k) + all[k];
    if k + 1 < all.len() {
        lemma_line_is_in_the_text(text, k + 1);
        let next = before_line(all, k + 1) + all[k + 1];
        assert(here =~= next.take(here.len() as int));
        assert(here =~= text.take(here.len() as int));
    } else {
        assert(here == text);
    }
}

/// What stands before a position is a beginning of the text: an offset falls
/// between two characters, and not past the end.
pub proof fn law_an_offset_is_a_boundary(
    text: Seq<char>,
    position: Position,
    encoding: PositionEncoding,
)
    requires
        offset_of(text, position, encoding) is Ok,
    ensures
        ({
            let before = before_position(lines(text), position, encoding)->Ok_0;
            &&& before.is_prefix_of(text)
            &&& offset_of(text, position, encoding) == Ok::<nat, ErrorView>(
                encoding::units(PositionEncoding::Utf8, before),
            )
            &&& encoding::units(PositionEncoding::Utf8, before) <= encoding::units(
                PositionEncoding::Utf8,
                text,
            )
        }),
{
    let all = lines(text);
    let before = before_position(all, position, encoding)->Ok_0;
    let k = position.line as int;
    lemma_line_is_in_the_text(text, k);
    let whole = before_line(all, k) + all[k];
    if position.character as nat >= encoding::units(encoding, all[k]) {
        assert(before == whole);
    } else {
        let n = choose|n: int|
            encoding::lands_on(encoding, all[k], position.character as nat, n);
        assert(before =~= whole.take(before.len() as int));
        assert(before =~= text.take(before.len() as int));
    }
    assert(text =~= before + text.skip(before.len() as int));
    encoding::lemma_units_add(PositionEncoding::Utf8, before, text.skip(before.len() as int));
}

/// A line past the end is the only line refused, and its last column is where
/// every column behind it goes.
pub proof fn law_a_column_past_the_end_is_the_end(
    text: Seq<char>,
    line: u32,
    character: u32,
    encoding: PositionEncoding,
)
    requires
        line < lines(text).len(),
        character >= encoding::units(encoding, lines(text)[line as int]),
    ensures
        offset_of(text, Position { line, character }, encoding) == Ok::<nat, ErrorView>(
            encoding::units(
                PositionEncoding::Utf8,
                before_line(lines(text), line as int) + lines(text)[line as int],
            ),
        ),
{
}

/// The lines of a document, so that positions can be resolved in it.
#[derive(Debug)]
pub struct LineTable {
    lines: Vec<Vec<char>>,
    starts: Vec<usize>,
}

impl View for LineTable {
    type V = Seq<char>;

    closed spec fn view(&self) -> Seq<char> {
        before_line(self.lines.deep_view(), self.lines.len() - 1)
            + self.lines.deep_view().last()
    }
}

impl LineTable {
    /// The lines are those of the document, each with the bytes before it.
    #[verifier::type_invariant]
    spec fn indexed(self) -> bool {
        &&& self.lines.deep_view() == lines(self@)
        &&& self.starts.len() == self.lines.len()
        &&& encoding::units(PositionEncoding::Utf8, self@) <= usize::MAX
        &&& forall|k: int|
            0 <= k < self.starts.len() ==> #[trigger] self.starts@[k] == encoding::units(
                PositionEncoding::Utf8,
                before_line(self.lines.deep_view(), k),
            )
    }

    /// Index `text` by line start.
    pub fn new(text: &str) -> (r: Self)
        ensures
            r@ == text@,
    {
        let size: usize = text.as_bytes().len();
        proof {
            encoding::law_bytes_are_utf8(text@);
            assert(size == encoding::units(PositionEncoding::Utf8, text@));
        }
        let chars = characters(text);
        let mut split: Vec<Vec<char>> = Vec::new();
        let mut line: Vec<char> = Vec::new();
        let ghost mut seen = lines(Seq::<char>::empty());
        assert(split.deep_view().push(line@) =~= seen);
        assert(text@.take(0) =~= Seq::<char>::empty());
        let mut i: usize = 0;
        while i < chars.len()
            invariant
                i <= chars.len(),
                chars@ == text@,
                seen == lines(text@.take(i as int)),
                seen == split.deep_view().push(line@),
            decreases chars.len() - i,
        {
            let c = chars[i];
            proof {
                let next = text@.take(i + 1);
                assert(next.drop_last() =~= text@.take(i as int));
                seen = lines(next);
            }
            if c == '\n' {
                let ghost done = split.deep_view();
                let ghost full = line@;
                assert(line.deep_view() =~= full);
                split.push(line);
                assert(split.deep_view() =~= done.push(full));
                line = Vec::new();
                assert(split.deep_view().push(line@) =~= done.push(full).push(Seq::empty()));
            } else {
                let ghost full = line@;
                line.push(c);
                assert(split.deep_view().push(line@) =~= split.deep_view().push(full).drop_last().push(
                    full.push(c),
                ));
            }
            i = i + 1;
        }
        assert(text@.take(i as int) =~= text@);
        let ghost done = split.deep_view();
        let ghost full = line@;
        assert(line.deep_view() =~= full);
        split.push(line);
        assert(split.deep_view() =~= done.push(full));
        let ghost all = split.deep_view();
        let converter = EncodingConverter::new(PositionEncoding::Utf8);
        let mut starts: Vec<usize> = Vec::new();
        let mut at: usize = 0;
        let mut k: usize = 0;
        while k < split.len()
            invariant
                k <= split.len(),
                all == split.deep_view(),
                all == lines(text@),
                converter.encoding == PositionEncoding::Utf8,
                encoding::units(PositionEncoding::Utf8, text@) <= usize::MAX,
                starts.len() == k,
                k < split.len() ==> at == encoding::units(
                    PositionEncoding::Utf8,
                    before_line(all, k as int),
                ),
                forall|j: int|
                    0 <= j < k ==> #[trigger] starts@[j] == encoding::units(
                        PositionEncoding::Utf8,
                        before_line(all, j),
                    ),
            decreases split.len() - k,
        {
            starts.push(at);
            proof {
                lemma_line_bytes(text@, k as int);
            }
            if k + 1 < split.len() {
                proof {
                    lemma_line_bytes(text@, k + 1);
                    let ended = all[k as int].push('\n');
                    assert(ended =~= all[k as int] + seq!['\n']);
                    encoding::lemma_units_add(
                        PositionEncoding::Utf8,
                        before_line(all, k as int),
                        ended,
                    );
                    encoding::lemma_units_add(PositionEncoding::Utf8, all[k as int], seq!['\n']);
                    lemma_newline_is_a_byte();
                    assert(split[k as int]@ == all[k as int]) by {
                        assert(split[k as int].deep_view() =~= split[k as int]@);
                    }
                }
                at = at + converter.length(&split[k]) + 1;
            }
            k = k + 1;
        }
        proof {
            law_lines_make_up_the_text(text@);
        }
        LineTable { lines: split, starts }
    }

    /// The characters of one line, without its terminating `\n`.
    pub fn line(&self, line: u32) -> (r: Result<Vec<char>, Error>)
        ensures
            match r {
                Ok(l) => line < lines(self@).len() && l@ == lines(self@)[line as int],
                Err(e) => line >= lines(self@).len() && e.deep_view() == ErrorView::ApplyRefused(
                    beyond_message(line, lines(self@).len()),
                ),
            },
    {
        proof {
            use_type_invariant(self);
        }
        let index: usize = line as usize;
        if index >= self.lines.len() {
            let mut m = "line ".to_owned();
            m.append(decimal(line as u64).as_str());
            m.append(" is beyond the document, which has ");
            m.append(decimal(self.lines.len() as u64).as_str());
            m.append(" lines");
            return Err(Error::ApplyRefused(m));
        }
        let l = copied(&self.lines[index]);
        assert(self.lines[index as int].deep_view() =~= self.lines[index as int]@);
        Ok(l)
    }

    /// Whether another line follows the line at `line`.
    pub fn has_line_after(&self, line: u32) -> (r: bool)
        ensures
            r == (line + 1 < lines(self@).len()),
    {
        proof {
            use_type_invariant(self);
        }
        self.lines.len() > 0 && (line as usize) < self.lines.len() - 1
    }

    /// Byte offset of `position`, with columns counted in `converter`'s
    /// encoding.
    ///
    /// A column past the end of its line resolves to the line's end. A line
    /// past the end of the document is an error, and so is a column inside a
    /// character.
    pub fn byte_offset(&self, position: Position, converter: &EncodingConverter) -> (r: Result<
        usize,
        Error,
    >)
        ensures
            match r {
                Ok(n) => offset_of(self@, position, converter.encoding) == Ok::<nat, ErrorView>(
                    n as nat,
                ),
                Err(e) => offset_of(self@, position, converter.encoding) == Err::<nat, ErrorView>(
                    e.deep_view(),
                ),
            },
    {
        proof {
            use_type_invariant(self);
        }
        let line = match self.line(position.line) {
            Ok(line) => line,
            Err(e) => {
                return Err(e);
            },
        };
        let ghost all = lines(self@);
        let ghost k = position.line as int;
        let bytes = EncodingConverter::new(PositionEncoding::Utf8);
        proof {
            lemma_line_bytes(self@, k);
            encoding::lemma_units_add(PositionEncoding::Utf8, before_line(all, k), line@);
        }
        let whole: usize = bytes.length(&line);
        if position.character as usize >= converter.length(&line) {
            return Ok(self.starts[position.line as usize] + whole);
        }
        match converter.characters_before(&line, position.character) {
            Some(n) => {
                proof {
                    assert(encoding::lands_on(
                        converter.encoding,
                        line@,
                        position.character as nat,
                        n as int,
                    ));
                    let m = choose|m: int|
                        encoding::lands_on(
                            converter.encoding,
                            line@,
                            position.character as nat,
                            m,
                        );
                    encoding::lemma_lands_once(
                        converter.encoding,
                        line@,
                        position.character as nat,
                        m,
                        n as int,
                    );
                    encoding::lemma_units_add(
                        PositionEncoding::Utf8,
                        before_line(all, k),
                        line@.take(n as int),
                    );
                    assert(line@ =~= line@.take(n as int) + line@.skip(n as int));
                    encoding::lemma_units_add(
                        PositionEncoding::Utf8,
                        line@.take(n as int),
                        line@.skip(n as int),
                    );
                }
                let head = first_of(&line, n);
                Ok(self.starts[position.line as usize] + bytes.length(&head))
            },
            None => {
                let mut m = "column ".to_owned();
                m.append(decimal(position.character as u64).as_str());
                m.append(" on line ");
                m.append(decimal(position.line as u64).as_str());
                m.append(": not a character boundary");
                Err(Error::ApplyRefused(m))
            },
        }
    }

    /// Byte range of `range`.
    ///
    /// Fails where either end does not resolve or the end precedes the start.
    pub fn byte_range(&self, range: Range, converter: &EncodingConverter) -> (r: Result<
        (usize, usize),
        Error,
    >)
        ensures
            match r {
                Ok(ends) => range_of(self@, range, converter.encoding) == Ok::<
                    (nat, nat),
                    ErrorView,
                >((ends.0 as nat, ends.1 as nat)),
                Err(e) => range_of(self@, range, converter.encoding) == Err::<
                    (nat, nat),
                    ErrorView,
                >(e.deep_view()),
            },
    {
        let start: usize = match self.byte_offset(range.start, converter) {
            Ok(start) => start,
            Err(e) => {
                return Err(e);
            },
        };
        let end: usize = match self.byte_offset(range.end, converter) {
            Ok(end) => end,
            Err(e) => {
                return Err(e);
            },
        };
        if end < start {
            let mut m = "range end ".to_owned();
            m.append(decimal(end as u64).as_str());
            m.append(" precedes start ");
            m.append(decimal(start as u64).as_str());
            return Err(Error::ApplyRefused(m));
        }
        Ok((start, end))
    }
}

proof fn lemma_newline_is_a_byte()
    ensures
        encoding::units(PositionEncoding::Utf8, seq!['\n']) == 1,
{
    let s = seq!['\n'];
    assert(s.drop_last() =~= Seq::<char>::empty());
    assert(encoding::units(PositionEncoding::Utf8, Seq::<char>::empty()) == 0);
}

proof fn lemma_line_bytes(text: Seq<char>, k: int)
    requires
        0 <= k < lines(text).len(),
    ensures
        encoding::units(PositionEncoding::Utf8, before_line(lines(text), k)) + encoding::units(
            PositionEncoding::Utf8,
            lines(text)[k],
        ) <= encoding::units(PositionEncoding::Utf8, text),
{
    lemma_line_is_in_the_text(text, k);
    let here = before_line(lines(text), k) + lines(text)[k];
    assert(text =~= here + text.skip(here.len() as int));
    encoding::lemma_units_add(PositionEncoding::Utf8, here, text.skip(here.len() as int));
    encoding::lemma_units_add(
        PositionEncoding::Utf8,
        before_line(lines(text), k),
        lines(text)[k],
    );
}

/// The first `n` characters.
pub fn first_of(chars: &Vec<char>, n: usize) -> (r: Vec<char>)
    requires
        n <= chars.len(),
    ensures
        r@ == chars@.take(n as int),
{
    let mut r: Vec<char> = Vec::new();
    let mut i: usize = 0;
    while i < n
        invariant
            i <= n,
            n <= chars.len(),
            r@ == chars@.take(i as int),
        decreases n - i,
    {
        r.push(chars[i]);
        i = i + 1;
    }
    r
}

fn copied(chars: &Vec<char>) -> (r: Vec<char>)
    ensures
        r@ == chars@,
{
    let r = first_of(chars, chars.len());
    assert(r@ =~= chars@);
    r
}

} // verus!
