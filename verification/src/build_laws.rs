//! How versions are read, and which build is the older.

use crate::handshake;
use crate::text;
use vstd::prelude::*;
use vstd::string::*;

verus! {

/// Numbers in decimal, with a dot between each two.
pub open spec fn dotted(numbers: Seq<u64>) -> Seq<char>
    decreases numbers.len(),
{
    if numbers.len() == 0 {
        Seq::empty()
    } else if numbers.len() == 1 {
        text::dec_text(numbers[0] as nat)
    } else {
        dotted(numbers.drop_last()).push('.') + text::dec_text(numbers.last() as nat)
    }
}

/// A number that is written in decimal is read back.
pub proof fn law_a_number_is_read_back(n: nat)
    ensures
        handshake::all_digits(text::dec_text(n)),
        handshake::digits_value(text::dec_text(n)) == n,
    decreases n,
{
    reveal_strlit("0");
    reveal_strlit("1");
    reveal_strlit("2");
    reveal_strlit("3");
    reveal_strlit("4");
    reveal_strlit("5");
    reveal_strlit("6");
    reveal_strlit("7");
    reveal_strlit("8");
    reveal_strlit("9");
    text::lemma_dec_text_digits(n);
    let last = text::digit_text(n % 10);
    assert(last[0] as int == 48 + n % 10);
    let s = text::dec_text(n);
    if n >= 10 {
        law_a_number_is_read_back(n / 10);
        assert(s.drop_last() =~= text::dec_text(n / 10));
        assert(s.last() == last[0]);
    } else {
        assert(s.drop_last() =~= Seq::<char>::empty());
        assert(handshake::digits_value(s.drop_last()) == 0);
    }
}

/// What follows a version without a separator in it makes its last part longer.
proof fn lemma_parts_grow(version: Seq<char>, more: Seq<char>)
    requires
        forall|i: int| 0 <= i < more.len() ==> !handshake::separator(#[trigger] more[i]),
    ensures
        handshake::version_parts(version).len() > 0,
        handshake::version_parts(version + more) == handshake::version_parts(
            version,
        ).drop_last().push(handshake::version_parts(version).last() + more),
    decreases version.len() + more.len(),
{
    if more.len() == 0 {
        assert(version + more =~= version);
        if version.len() > 0 {
            lemma_parts_grow(version.drop_last(), Seq::empty());
        }
        let parts = handshake::version_parts(version);
        assert(parts.last() + more =~= parts.last());
        assert(parts =~= parts.drop_last().push(parts.last()));
    } else {
        let less = more.drop_last();
        lemma_parts_grow(version, less);
        assert((version + more).drop_last() =~= version + less);
        assert((version + more).last() == more.last());
        assert(!handshake::separator(more[more.len() - 1]));
        let parts = handshake::version_parts(version);
        let before = handshake::version_parts(version + less);
        assert(before.drop_last() =~= parts.drop_last());
        assert((parts.last() + less).push(more.last()) =~= parts.last() + more);
    }
}

/// The numbers of a version that is written as numbers with dots between them
/// are those numbers.
pub proof fn law_a_version_is_read_back(numbers: Seq<u64>)
    requires
        numbers.len() > 0,
    ensures
        handshake::version_numbers(dotted(numbers)) == numbers,
    decreases numbers.len(),
{
    let last = numbers.last();
    let digits = text::dec_text(last as nat);
    law_a_number_is_read_back(last as nat);
    text::lemma_dec_text_digits(last as nat);
    let head = if numbers.len() == 1 {
        Seq::<char>::empty()
    } else {
        dotted(numbers.drop_last()).push('.')
    };
    lemma_parts_grow(head, digits);
    assert(dotted(numbers) =~= head + digits);
    let parts = handshake::version_parts(head + digits);
    let f = |s: Seq<char>| handshake::part_number(s);
    if numbers.len() == 1 {
        assert(handshake::version_parts(head) == seq![Seq::<char>::empty()]);
        assert(Seq::<char>::empty() + digits =~= digits);
        assert(parts =~= seq![digits]);
        assert(handshake::version_numbers(dotted(numbers)) =~= numbers);
    } else {
        let less = numbers.drop_last();
        law_a_version_is_read_back(less);
        assert(head.drop_last() =~= dotted(less));
        let before = handshake::version_parts(dotted(less));
        assert(handshake::version_parts(head) == before.push(Seq::empty()));
        assert(handshake::version_parts(head).drop_last() =~= before);
        assert(Seq::<char>::empty() + digits =~= digits);
        assert(parts =~= before.push(digits));
        assert(handshake::version_numbers(dotted(less)) == less);
        assert(before.map_values(f) =~= handshake::version_numbers(dotted(less)));
        assert(handshake::version_numbers(dotted(numbers)) =~= parts.map_values(f));
        assert(parts.map_values(f) =~= before.map_values(f).push(last));
        assert(numbers =~= less.push(last));
    }
}

/// Whether two lists of numbers first differ at `i`, where `a` has the smaller
/// number or has ended.
pub open spec fn smaller_at(a: Seq<u64>, b: Seq<u64>, i: int) -> bool {
    &&& 0 <= i <= a.len()
    &&& i < b.len()
    &&& forall|j: int| 0 <= j < i ==> #[trigger] a[j] == b[j]
    &&& i < a.len() ==> a[i] < b[i]
}

proof fn lemma_smaller_at(a: Seq<u64>, b: Seq<u64>)
    ensures
        handshake::list_before(a, b) <==> exists|i: int| smaller_at(a, b, i),
    decreases a.len(),
{
    if a.len() > 0 && b.len() > 0 && a[0] == b[0] {
        let x = a.drop_first();
        let y = b.drop_first();
        lemma_smaller_at(x, y);
        if handshake::list_before(a, b) {
            let i = choose|i: int| smaller_at(x, y, i);
            assert forall|j: int| 0 <= j < i + 1 implies #[trigger] a[j] == b[j] by {
                if j > 0 {
                    assert(x[j - 1] == y[j - 1]);
                }
            }
            assert(smaller_at(a, b, i + 1));
        }
        if exists|i: int| smaller_at(a, b, i) {
            let i = choose|i: int| smaller_at(a, b, i);
            assert(i > 0);
            assert forall|j: int| 0 <= j < i - 1 implies #[trigger] x[j] == y[j] by {
                assert(a[j + 1] == b[j + 1]);
            }
            assert(smaller_at(x, y, i - 1));
        }
    } else {
        if handshake::list_before(a, b) {
            assert(smaller_at(a, b, 0));
        }
        if exists|i: int| smaller_at(a, b, i) {
            let i = choose|i: int| smaller_at(a, b, i);
            if i > 0 {
                assert(a[0] == b[0]);
            }
        }
    }
}

/// A build is older exactly where its protocol is, or where the protocols are
/// equal and its version has the smaller number at the first place where the
/// two differ, or ends there.
pub proof fn law_which_build_is_older(a: (u32, Seq<char>), b: (u32, Seq<char>))
    ensures
        handshake::build_before(a, b) <==> a.0 < b.0 || (a.0 == b.0 && exists|i: int|
            smaller_at(handshake::version_numbers(a.1), handshake::version_numbers(b.1), i)),
{
    lemma_smaller_at(handshake::version_numbers(a.1), handshake::version_numbers(b.1));
}

/// A handshake that reads as written is taken as far as its first line end and
/// no further: reading twice takes two lines.
pub proof fn law_two_lines_are_two_readings(a: Seq<u8>, b: Seq<u8>)
    requires
        a.len() <= handshake::MAX_LINE,
        b.len() <= handshake::MAX_LINE,
        !a.contains(10),
        !b.contains(10),
    ensures
        ({
            let input = a.push(10) + b.push(10);
            let first = handshake::read_bytes(Seq::empty(), input);
            let second = handshake::read_bytes(Seq::empty(), input.skip(first.2 as int));
            &&& first.0 == a && first.1 == handshake::LineStep::Complete
            &&& second.0 == b && second.1 == handshake::LineStep::Complete
        }),
{
    let input = a.push(10) + b.push(10);
    handshake::law_reading_takes_exactly_one_line(a, b.push(10));
    handshake::law_reading_takes_exactly_one_line(b, Seq::empty());
    assert(input.skip(a.len() as int + 1) =~= b.push(10));
    assert(b.push(10) + Seq::<u8>::empty() =~= b.push(10));
}

/// Two configurations are in conflict exactly where one of them came from the
/// project's file and the other ignored that file: what else they say does not
/// matter.
pub proof fn law_when_configurations_conflict(a: handshake::StampView, b: handshake::StampView)
    ensures
        handshake::in_conflict(a, b) <==> {
            ||| a.source == crate::config::ConfigSource::Project && b.project_ignored
            ||| b.source == crate::config::ConfigSource::Project && a.project_ignored
        },
        !a.project_ignored && !b.project_ignored ==> !handshake::in_conflict(a, b),
        a.source != crate::config::ConfigSource::Project && b.source
            != crate::config::ConfigSource::Project ==> !handshake::in_conflict(a, b),
{
}

} // verus!
