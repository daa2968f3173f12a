//! How servers count columns.

use crate::text::{code, same_text};
use vstd::prelude::*;

verus! {

/// The code units in which a server counts columns.
#[derive(Clone, Copy, Debug, PartialEq, Eq, Structural)]
pub enum PositionEncoding {
    /// Bytes.
    Utf8,
    /// Sixteen-bit units.
    Utf16,
    /// Characters.
    Utf32,
}

/// The counting that a server names, where the name is known.
pub open spec fn named(name: Seq<char>) -> Option<PositionEncoding> {
    if name == "utf-8"@ {
        Some(PositionEncoding::Utf8)
    } else if name == "utf-16"@ {
        Some(PositionEncoding::Utf16)
    } else if name == "utf-32"@ {
        Some(PositionEncoding::Utf32)
    } else {
        None
    }
}

/// The counting that was agreed on with a server. Without a server, or with a
/// name that is not known, columns count sixteen-bit units.
pub open spec fn agreed(name: Option<Seq<char>>) -> PositionEncoding {
    match name {
        Some(n) => match named(n) {
            Some(encoding) => encoding,
            None => PositionEncoding::Utf16,
        },
        None => PositionEncoding::Utf16,
    }
}

impl PositionEncoding {
    /// The counting that a server names, where the name is known.
    pub fn from_lsp(name: &str) -> (r: Option<PositionEncoding>)
        ensures
            r == named(name@),
    {
        if same_text(name, "utf-8") {
            Some(PositionEncoding::Utf8)
        } else if same_text(name, "utf-16") {
            Some(PositionEncoding::Utf16)
        } else if same_text(name, "utf-32") {
            Some(PositionEncoding::Utf32)
        } else {
            None
        }
    }
}

/// The counting that was agreed on with a server.
pub fn position_encoding_for(negotiated: Option<&str>) -> (r: PositionEncoding)
    ensures
        r == agreed(
            match negotiated {
                Some(name) => Some(name@),
                None => None,
            },
        ),
{
    match negotiated {
        Some(name) => match PositionEncoding::from_lsp(name) {
            Some(encoding) => encoding,
            None => PositionEncoding::Utf16,
        },
        None => PositionEncoding::Utf16,
    }
}

/// How many units one character takes.
pub open spec fn unit_width(encoding: PositionEncoding, c: char) -> nat {
    match encoding {
        PositionEncoding::Utf8 => if (c as int) < 0x80 {
            1
        } else if (c as int) < 0x800 {
            2
        } else if (c as int) < 0x10000 {
            3
        } else {
            4
        },
        PositionEncoding::Utf16 => if (c as int) < 0x10000 {
            1
        } else {
            2
        },
        PositionEncoding::Utf32 => 1,
    }
}

/// How many units a text takes.
pub open spec fn units(encoding: PositionEncoding, s: Seq<char>) -> nat
    decreases s.len(),
{
    if s.len() == 0 {
        0
    } else {
        units(encoding, s.drop_last()) + unit_width(encoding, s.last())
    }
}

/// Whether `column` stands before the `n`-th character of `line`.
pub open spec fn lands_on(
    encoding: PositionEncoding,
    line: Seq<char>,
    column: nat,
    n: int,
) -> bool {
    0 <= n <= line.len() && units(encoding, line.take(n)) == column
}

/// Converts between columns and characters for one way of counting.
#[derive(Clone, Copy, Debug, PartialEq, Eq, Structural)]
pub struct EncodingConverter {
    /// The units counted.
    pub encoding: PositionEncoding,
}

/// Texts add up.
pub proof fn lemma_units_add(encoding: PositionEncoding, a: Seq<char>, b: Seq<char>)
    ensures
        units(encoding, a + b) == units(encoding, a) + units(encoding, b),
    decreases b.len(),
{
    if b.len() == 0 {
        assert(a + b =~= a);
    } else {
        assert((a + b).drop_last() =~= a + b.drop_last());
        lemma_units_add(encoding, a, b.drop_last());
    }
}

/// Every character takes a unit, and as many bytes as units of any kind.
pub proof fn lemma_units_bounds(encoding: PositionEncoding, s: Seq<char>)
    ensures
        s.len() <= units(encoding, s) <= units(PositionEncoding::Utf8, s),
    decreases s.len(),
{
    if s.len() > 0 {
        lemma_units_bounds(encoding, s.drop_last());
    }
}

/// A longer prefix takes more units.
pub proof fn lemma_units_grow(encoding: PositionEncoding, s: Seq<char>, m: int, n: int)
    requires
        0 <= m < n <= s.len(),
    ensures
        units(encoding, s.take(m)) < units(encoding, s.take(n)) <= units(encoding, s),
{
    let middle = s.subrange(m, n);
    assert(s.take(n) =~= s.take(m) + middle);
    assert(s =~= s.take(n) + s.skip(n));
    lemma_units_add(encoding, s.take(m), middle);
    lemma_units_add(encoding, s.take(n), s.skip(n));
    lemma_units_bounds(encoding, middle);
}

/// A column stands before one character at most.
pub proof fn lemma_lands_once(
    encoding: PositionEncoding,
    line: Seq<char>,
    column: nat,
    m: int,
    n: int,
)
    requires
        lands_on(encoding, line, column, m),
        lands_on(encoding, line, column, n),
    ensures
        m == n,
{
    if m < n {
        lemma_units_grow(encoding, line, m, n);
    } else if n < m {
        lemma_units_grow(encoding, line, n, m);
    }
}

proof fn lemma_scalar_bytes(c: char)
    ensures
        vstd::utf8::encode_scalar(c as u32).len() == unit_width(PositionEncoding::Utf8, c),
{
    vstd::utf8::char_is_scalar(c);
    assert((c as u32) as int == c as int);
}

/// The bytes counted are those of the text's UTF-8 form.
pub proof fn law_bytes_are_utf8(s: Seq<char>)
    ensures
        units(PositionEncoding::Utf8, s) == vstd::utf8::encode_utf8(s).len(),
    decreases s.len(),
{
    if s.len() > 0 {
        let first = seq![s[0]];
        let rest = s.drop_first();
        assert(s =~= first + rest);
        lemma_units_add(PositionEncoding::Utf8, first, rest);
        law_bytes_are_utf8(rest);
        assert(first.drop_last() =~= Seq::<char>::empty());
        assert(units(PositionEncoding::Utf8, first) == unit_width(PositionEncoding::Utf8, s[0])) by {
            assert(units(PositionEncoding::Utf8, Seq::<char>::empty()) == 0);
        }
        lemma_scalar_bytes(s[0]);
    }
}

impl EncodingConverter {
    /// A converter for one way of counting.
    pub fn new(encoding: PositionEncoding) -> (r: Self)
        ensures
            r.encoding == encoding,
    {
        EncodingConverter { encoding }
    }

    /// How many units `c` takes.
    pub(crate) fn width(&self, c: char) -> (r: usize)
        ensures
            r == unit_width(self.encoding, c),
            1 <= r <= 4,
    {
        let n: u32 = code(c);
        match self.encoding {
            PositionEncoding::Utf8 => if n < 0x80 {
                1
            } else if n < 0x800 {
                2
            } else if n < 0x10000 {
                3
            } else {
                4
            },
            PositionEncoding::Utf16 => if n < 0x10000 {
                1
            } else {
                2
            },
            PositionEncoding::Utf32 => 1,
        }
    }

    /// How many units the line takes.
    pub(crate) fn length(&self, line: &Vec<char>) -> (r: usize)
        requires
            units(PositionEncoding::Utf8, line@) <= usize::MAX,
        ensures
            r == units(self.encoding, line@),
    {
        let mut total: usize = 0;
        let mut i: usize = 0;
        assert(line@.take(0) =~= Seq::<char>::empty());
        while i < line.len()
            invariant
                i <= line.len(),
                units(PositionEncoding::Utf8, line@) <= usize::MAX,
                total == units(self.encoding, line@.take(i as int)),
            decreases line.len() - i,
        {
            proof {
                let next = line@.take(i + 1);
                assert(next.drop_last() =~= line@.take(i as int));
                lemma_units_bounds(self.encoding, line@);
                if i + 1 < line.len() {
                    lemma_units_grow(self.encoding, line@, i + 1, line.len() as int);
                } else {
                    assert(next =~= line@);
                }
            }
            total = total + self.width(line[i]);
            i = i + 1;
        }
        assert(line@.take(i as int) =~= line@);
        total
    }

    /// The number of characters before `column`, where it stands before one or
    /// at the line's end.
    pub(crate) fn characters_before(&self, line: &Vec<char>, column: u32) -> (r: Option<usize>)
        requires
            units(PositionEncoding::Utf8, line@) <= usize::MAX,
        ensures
            match r {
                Some(n) => lands_on(self.encoding, line@, column as nat, n as int),
                None => forall|n: int| !lands_on(self.encoding, line@, column as nat, n),
            },
    {
        let mut total: usize = 0;
        let mut i: usize = 0;
        assert(line@.take(0) =~= Seq::<char>::empty());
        while i < line.len() && total < column as usize
            invariant
                i <= line.len(),
                units(PositionEncoding::Utf8, line@) <= usize::MAX,
                total == units(self.encoding, line@.take(i as int)),
                forall|n: int| 0 <= n < i ==> units(self.encoding, #[trigger] line@.take(n)) < column,
            decreases line.len() - i,
        {
            proof {
                let next = line@.take(i + 1);
                assert(next.drop_last() =~= line@.take(i as int));
                lemma_units_bounds(self.encoding, line@);
                if i + 1 < line.len() {
                    lemma_units_grow(self.encoding, line@, i + 1, line.len() as int);
                } else {
                    assert(next =~= line@);
                }
            }
            total = total + self.width(line[i]);
            i = i + 1;
        }
        if total == column as usize {
            Some(i)
        } else {
            proof {
                assert forall|n: int| !lands_on(self.encoding, line@, column as nat, n) by {
                    if i < n <= line.len() {
                        lemma_units_grow(self.encoding, line@, i as int, n);
                    }
                }
            }
            None
        }
    }
}

} // verus!
