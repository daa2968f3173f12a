//! Text as sequences of characters: comparison, decimal rendering, sorting.

use crate::order;
use vstd::prelude::*;
use vstd::string::*;

verus! {

/// The decimal digit of `d`, for `d` below ten.
pub open spec fn digit_text(d: nat) -> Seq<char> {
    if d == 0 {
        "0"@
    } else if d == 1 {
        "1"@
    } else if d == 2 {
        "2"@
    } else if d == 3 {
        "3"@
    } else if d == 4 {
        "4"@
    } else if d == 5 {
        "5"@
    } else if d == 6 {
        "6"@
    } else if d == 7 {
        "7"@
    } else if d == 8 {
        "8"@
    } else {
        "9"@
    }
}

/// `n` in decimal, without leading zeros.
pub open spec fn dec_text(n: nat) -> Seq<char>
    decreases n,
{
    if n < 10 {
        digit_text(n)
    } else {
        dec_text(n / 10) + digit_text(n % 10)
    }
}

fn digit(d: u64) -> (r: &'static str)
    requires
        d < 10,
    ensures
        r@ == digit_text(d as nat),
{
    match d {
        0 => "0",
        1 => "1",
        2 => "2",
        3 => "3",
        4 => "4",
        5 => "5",
        6 => "6",
        7 => "7",
        8 => "8",
        _ => "9",
    }
}

/// Render `n` in decimal.
pub fn decimal(n: u64) -> (r: String)
    ensures
        r@ == dec_text(n as nat),
    decreases n,
{
    if n < 10 {
        digit(n).to_owned()
    } else {
        let mut text = decimal(n / 10);
        text.append(digit(n % 10));
        text
    }
}

proof fn lemma_digit_text(a: nat, b: nat)
    requires
        a < 10,
        b < 10,
    ensures
        digit_text(a).len() == 1,
        digit_text(a) == digit_text(b) ==> a == b,
{
    reveal_strlit("0");
    reveal_strlit("1");
    reveal_strlit("2");
    reveal_strlit("3");
    reveal_strlit("4");
    reveal_strlit("5");
    reveal_strlit("6");
    reveal_strlit("7");
    reveal_strlit("8");
    reveal_strlit("9");
    assert(digit_text(a)[0] as int == 48 + a);
    assert(digit_text(b)[0] as int == 48 + b);
}

/// Different numbers are written differently.
pub proof fn lemma_dec_text_injective(a: nat, b: nat)
    ensures
        dec_text(a).len() > 0,
        a < 10 <==> dec_text(a).len() == 1,
        dec_text(a) == dec_text(b) ==> a == b,
    decreases a,
{
    lemma_digit_text(a % 10, b % 10);
    lemma_digit_text(b % 10, a % 10);
    if a >= 10 {
        lemma_dec_text_injective(a / 10, b / 10);
        lemma_dec_text_injective(a / 10, a / 10);
    }
    if b >= 10 {
        lemma_dec_text_nonempty(b / 10);
    }
    if dec_text(a) == dec_text(b) && a >= 10 && b >= 10 {
        let x = dec_text(a);
        let y = dec_text(b);
        assert(x.drop_last() =~= dec_text(a / 10));
        assert(y.drop_last() =~= dec_text(b / 10));
        assert(x.skip(x.len() - 1) =~= digit_text(a % 10));
        assert(y.skip(y.len() - 1) =~= digit_text(b % 10));
    }
}

proof fn lemma_dec_text_nonempty(a: nat)
    ensures
        dec_text(a).len() > 0,
    decreases a,
{
    lemma_digit_text(a % 10, a % 10);
    if a >= 10 {
        lemma_dec_text_nonempty(a / 10);
    }
}

/// A number is written in digits alone.
pub proof fn lemma_dec_text_digits(n: nat)
    ensures
        dec_text(n).len() > 0,
        forall|i: int| 0 <= i < dec_text(n).len() ==> 48 <= #[trigger] dec_text(n)[i] as int <= 57,
    decreases n,
{
    reveal_strlit("0");
    reveal_strlit("1");
    reveal_strlit("2");
    reveal_strlit("3");
    reveal_strlit("4");
    reveal_strlit("5");
    reveal_strlit("6");
    reveal_strlit("7");
    reveal_strlit("8");
    reveal_strlit("9");
    assert(digit_text(n % 10)[0] as int == 48 + n % 10);
    if n >= 10 {
        lemma_dec_text_digits(n / 10);
        let head = dec_text(n / 10);
        assert forall|i: int| 0 <= i < dec_text(n).len() implies 48 <= #[trigger] dec_text(
            n,
        )[i] as int <= 57 by {
            if i < head.len() {
                assert(dec_text(n)[i] == head[i]);
            }
        }
    }
}

/// Different integers are written differently, in digits and at most a sign.
pub proof fn lemma_int_text_injective(a: int, b: int)
    ensures
        int_text(a) == int_text(b) ==> a == b,
        forall|i: int|
            0 <= i < int_text(a).len() ==> 48 <= #[trigger] int_text(a)[i] as int <= 57
                || int_text(a)[i] == '-',
{
    reveal_strlit("-");
    let x = if a < 0 { (-a) as nat } else { a as nat };
    let y = if b < 0 { (-b) as nat } else { b as nat };
    lemma_dec_text_digits(x);
    lemma_dec_text_digits(y);
    lemma_dec_text_injective(x, y);
    assert forall|i: int| 0 <= i < int_text(a).len() implies 48 <= #[trigger] int_text(a)[i] as int
        <= 57 || int_text(a)[i] == '-' by {
        if a < 0 && i > 0 {
            assert(int_text(a)[i] == dec_text(x)[i - 1]);
        } else if a >= 0 {
            assert(int_text(a)[i] == dec_text(x)[i]);
        }
    }
    if int_text(a) == int_text(b) {
        if a < 0 {
            assert(int_text(a)[0] == '-');
            assert(int_text(a).skip(1) =~= dec_text(x));
        } else {
            assert(int_text(a)[0] == dec_text(x)[0]);
        }
        if b < 0 {
            assert(int_text(b)[0] == '-');
            assert(int_text(b).skip(1) =~= dec_text(y));
        } else {
            assert(int_text(b)[0] == dec_text(y)[0]);
        }
    }
}

/// An integer in decimal, with a sign in front when it is negative.
pub open spec fn int_text(n: int) -> Seq<char> {
    if n < 0 {
        "-"@ + dec_text((-n) as nat)
    } else {
        dec_text(n as nat)
    }
}

/// Render `n` in decimal, with its sign.
pub fn signed_decimal(n: i32) -> (r: String)
    ensures
        r@ == int_text(n as int),
{
    let wide: i64 = n as i64;
    if wide < 0 {
        let mut r = "-".to_owned();
        r.append(decimal((0 - wide) as u64).as_str());
        r
    } else {
        decimal(wide as u64)
    }
}

/// Whether two texts hold the same characters.
pub fn same_text(a: &str, b: &str) -> (r: bool)
    ensures
        r == (a@ == b@),
{
    a.to_owned() == b.to_owned()
}

/// The characters of `s`, in order.
pub fn characters(s: &str) -> (r: Vec<char>)
    ensures
        r@ == s@,
{
    let mut r: Vec<char> = Vec::new();
    for c in iter: s.chars()
        invariant
            iter.seq() == s@,
            r@ == s@.take(iter.index() as int),
    {
        r.push(c);
    }
    r
}

/// Concatenate two texts.
pub fn joined(a: &str, b: &str) -> (r: String)
    ensures
        r@ == a@ + b@,
{
    let mut r = a.to_owned();
    r.append(b);
    r
}

/// An ASCII capital letter in lower case; any other character unchanged.
pub open spec fn lower(c: char) -> int {
    if 65 <= c as int <= 90 {
        c as int + 32
    } else {
        c as int
    }
}

/// Equality that does not tell ASCII capitals from small letters.
pub open spec fn same_ignoring_case(a: Seq<char>, b: Seq<char>) -> bool {
    a.len() == b.len() && forall|i: int| 0 <= i < a.len() ==> lower(#[trigger] a[i]) == lower(b[i])
}

/// The code point of `c`.
pub fn code(c: char) -> (r: u32)
    ensures
        r as int == c as int,
{
    c as u32
}

fn lowered(c: char) -> (r: u32)
    ensures
        r as int == lower(c),
{
    let n: u32 = code(c);
    if 65 <= n && n <= 90 {
        n + 32
    } else {
        n
    }
}

/// Whether two texts differ at most in the case of ASCII letters.
pub fn eq_ignoring_case(a: &str, b: &str) -> (r: bool)
    ensures
        r == same_ignoring_case(a@, b@),
{
    let x = characters(a);
    let y = characters(b);
    if x.len() != y.len() {
        return false;
    }
    let mut i: usize = 0;
    while i < x.len()
        invariant
            x@ == a@,
            y@ == b@,
            x.len() == y.len(),
            i <= x.len(),
            forall|j: int| 0 <= j < i ==> lower(#[trigger] a@[j]) == lower(b@[j]),
        decreases x.len() - i,
    {
        if lowered(x[i]) != lowered(y[i]) {
            assert(lower(a@[i as int]) != lower(b@[i as int]));
            return false;
        }
        i = i + 1;
    }
    true
}

/// The order of texts by their first differing character; a prefix comes first.
pub open spec fn text_leq(a: Seq<char>, b: Seq<char>) -> bool
    decreases a.len(),
{
    if a.len() == 0 {
        true
    } else if b.len() == 0 {
        false
    } else if a[0] as int != b[0] as int {
        (a[0] as int) < (b[0] as int)
    } else {
        text_leq(a.drop_first(), b.drop_first())
    }
}

/// The same order as a relation.
pub open spec fn text_order() -> spec_fn(Seq<char>, Seq<char>) -> bool {
    |a: Seq<char>, b: Seq<char>| text_leq(a, b)
}

proof fn lemma_text_leq_reflexive(a: Seq<char>)
    ensures
        text_leq(a, a),
    decreases a.len(),
{
    if a.len() > 0 {
        lemma_text_leq_reflexive(a.drop_first());
    }
}

proof fn lemma_text_leq_antisymmetric(a: Seq<char>, b: Seq<char>)
    requires
        text_leq(a, b),
        text_leq(b, a),
    ensures
        a == b,
    decreases a.len(),
{
    if a.len() > 0 && b.len() > 0 {
        lemma_text_leq_antisymmetric(a.drop_first(), b.drop_first());
        assert(a =~= seq![a[0]] + a.drop_first());
        assert(b =~= seq![b[0]] + b.drop_first());
    } else {
        assert(a =~= b);
    }
}

/// `text_leq` is transitive.
pub proof fn lemma_text_leq_transitive(a: Seq<char>, b: Seq<char>, c: Seq<char>)
    requires
        text_leq(a, b),
        text_leq(b, c),
    ensures
        text_leq(a, c),
    decreases a.len(),
{
    if a.len() > 0 && b.len() > 0 && c.len() > 0 && a[0] == b[0] && b[0] == c[0] {
        lemma_text_leq_transitive(a.drop_first(), b.drop_first(), c.drop_first());
    }
}

/// Of two texts one comes first.
pub proof fn lemma_text_leq_total(a: Seq<char>, b: Seq<char>)
    ensures
        text_leq(a, b) || text_leq(b, a),
    decreases a.len(),
{
    if a.len() > 0 && b.len() > 0 && a[0] == b[0] {
        lemma_text_leq_total(a.drop_first(), b.drop_first());
    }
}

/// The order of texts is total.
pub proof fn lemma_text_order()
    ensures
        vstd::relations::total_ordering(text_order()),
{
    let r = text_order();
    assert forall|x: Seq<char>| #[trigger] r(x, x) by {
        lemma_text_leq_reflexive(x);
    }
    assert forall|x: Seq<char>, y: Seq<char>| #[trigger] r(x, y) && #[trigger] r(y, x) implies x
        == y by {
        lemma_text_leq_antisymmetric(x, y);
    }
    assert forall|x: Seq<char>, y: Seq<char>, z: Seq<char>| #[trigger]
        r(x, y) && #[trigger] r(y, z) implies r(x, z) by {
        lemma_text_leq_transitive(x, y, z);
    }
    assert forall|x: Seq<char>, y: Seq<char>| #[trigger] r(x, y) || #[trigger] r(y, x) by {
        lemma_text_leq_total(x, y);
    }
}

/// Whether `a` comes no later than `b`.
pub fn no_later(a: &str, b: &str) -> (r: bool)
    ensures
        r == text_leq(a@, b@),
{
    let x = characters(a);
    let y = characters(b);
    let mut i: usize = 0;
    assert(a@.skip(0) =~= a@ && b@.skip(0) =~= b@);
    while i < x.len() && i < y.len()
        invariant
            x@ == a@,
            y@ == b@,
            i <= x.len(),
            i <= y.len(),
            text_leq(a@, b@) == text_leq(a@.skip(i as int), b@.skip(i as int)),
        decreases x.len() - i,
    {
        let ghost p = a@.skip(i as int);
        let ghost q = b@.skip(i as int);
        assert(p[0] == x[i as int] && q[0] == y[i as int]);
        let m: u32 = code(x[i]);
        let n: u32 = code(y[i]);
        if m != n {
            return m < n;
        }
        i = i + 1;
        assert(p.drop_first() =~= a@.skip(i as int));
        assert(q.drop_first() =~= b@.skip(i as int));
    }
    i == x.len()
}

/// Put the texts into their order.
pub fn sort_texts(texts: Vec<String>) -> (r: Vec<String>)
    ensures
        r.deep_view() == texts.deep_view().sort_by(text_order()),
{
    let ghost order = text_order();
    let mut sorted: Vec<String> = Vec::new();
    proof {
        lemma_text_order();
        assert(sorted.deep_view() =~= Seq::<Seq<char>>::empty());
        assert(texts.deep_view().take(0) =~= Seq::<Seq<char>>::empty());
    }
    let mut i: usize = 0;
    while i < texts.len()
        invariant
            i <= texts.len(),
            order == text_order(),
            vstd::relations::total_ordering(order),
            vstd::relations::sorted_by(sorted.deep_view(), order),
            sorted.deep_view().to_multiset() == texts.deep_view().take(i as int).to_multiset(),
        decreases texts.len() - i,
    {
        let item = texts[i].clone();
        let ghost before = sorted.deep_view();
        let mut at: usize = sorted.len();
        while at > 0 && !no_later(&sorted[at - 1], &item)
            invariant
                at <= sorted.len(),
                order == text_order(),
                vstd::relations::total_ordering(order),
                before == sorted.deep_view(),
                vstd::relations::sorted_by(before, order),
                forall|j: int| at <= j < before.len() ==> text_leq(item@, #[trigger] before[j]),
            decreases at,
        {
            at = at - 1;
            proof {
                lemma_text_leq_total(before[at as int], item@);
            }
        }
        proof {
            assert forall|j: int| 0 <= j < at implies text_leq(#[trigger] before[j], item@) by {
                if j < at - 1 {
                    assert(order(before[j], before[at - 1]));
                    lemma_text_leq_transitive(before[j], before[at - 1], item@);
                }
            }
        }
        let ghost word = item@;
        sorted.insert(at, item);
        proof {
            assert(sorted.deep_view() =~= before.insert(at as int, word));
            order::lemma_insert_in_order(before, at as int, word, order);
            let taken = texts.deep_view().take(i as int);
            assert(texts.deep_view().take(i + 1) =~= taken.push(word));
            taken.to_multiset_ensures();
        }
        i = i + 1;
    }
    proof {
        let all = texts.deep_view();
        assert(all.take(i as int) =~= all);
        order::lemma_in_order_is_sorted(sorted.deep_view(), all, order);
    }
    sorted
}

/// [`String::push`] appends one character.
pub assume_specification[ String::push ](s: &mut String, c: char)
    ensures
        final(s)@ == old(s)@.push(c),
;

/// The text made of these characters.
pub fn text_of(chars: &Vec<char>) -> (r: String)
    ensures
        r@ == chars@,
{
    let mut r = String::new();
    let mut i: usize = 0;
    assert(r@ =~= Seq::<char>::empty());
    while i < chars.len()
        invariant
            i <= chars.len(),
            r@ == chars@.take(i as int),
        decreases chars.len() - i,
    {
        r.push(chars[i]);
        i = i + 1;
        assert(chars@.take(i as int) =~= chars@.take(i - 1).push(chars@[i - 1]));
    }
    assert(chars@.take(i as int) =~= chars@);
    r
}

/// Whether `s` begins with `prefix`.
pub fn starts_with(s: &str, prefix: &str) -> (r: bool)
    ensures
        r == prefix@.is_prefix_of(s@),
{
    let a = characters(s);
    let b = characters(prefix);
    if b.len() > a.len() {
        return false;
    }
    let mut i: usize = 0;
    while i < b.len()
        invariant
            a@ == s@,
            b@ == prefix@,
            b.len() <= a.len(),
            i <= b.len(),
            b@.take(i as int) == a@.take(i as int),
        decreases b.len() - i,
    {
        if a[i] != b[i] {
            proof {
                if prefix@.is_prefix_of(s@) {
                    assert(prefix@[i as int] == s@.subrange(0, prefix@.len() as int)[i as int]);
                }
            }
            return false;
        }
        i = i + 1;
        assert(b@.take(i as int) =~= b@.take(i - 1).push(b@[i - 1]));
        assert(a@.take(i as int) =~= a@.take(i - 1).push(a@[i - 1]));
    }
    assert(b@.take(i as int) =~= prefix@);
    assert(a@.take(i as int) =~= s@.subrange(0, prefix@.len() as int));
    true
}

/// What follows the first `n` characters of `s`.
pub fn after(s: &str, n: usize) -> (r: String)
    requires
        n <= s@.len(),
    ensures
        r@ == s@.skip(n as int),
{
    let chars = characters(s);
    let mut r = String::new();
    let mut i: usize = n;
    assert(r@ =~= s@.subrange(n as int, n as int));
    while i < chars.len()
        invariant
            chars@ == s@,
            n <= i <= chars.len(),
            r@ == s@.subrange(n as int, i as int),
        decreases chars.len() - i,
    {
        r.push(chars[i]);
        i = i + 1;
        assert(s@.subrange(n as int, i as int) =~= s@.subrange(n as int, i - 1).push(s@[i - 1]));
    }
    assert(s@.subrange(n as int, i as int) =~= s@.skip(n as int));
    r
}

} // verus!
