//! What the hash of a list of diagnostics is taken of, and what that keeps
//! apart.

use crate::config::SeverityFloor;
use crate::diagnostics;
use crate::diagnostics::{DiagnosticSeverity, DiagnosticView, Range};
use crate::text;
use vstd::prelude::*;
use vstd::string::*;

verus! {

/// Whether a text holds no colon.
spec fn no_colon(t: Seq<char>) -> bool {
    forall|i: int| 0 <= i < t.len() ==> #[trigger] t[i] != ':'
}

/// Where a text without a colon stands before a colon, both what stands before
/// it and what stands behind it can be read back.
proof fn lemma_cut_at_the_colon(x: Seq<char>, y: Seq<char>, u: Seq<char>, v: Seq<char>)
    requires
        no_colon(x),
        no_colon(u),
        x + ":"@ + y == u + ":"@ + v,
    ensures
        x == u,
        y == v,
{
    reveal_strlit(":");
    let s = x + ":"@ + y;
    let t = u + ":"@ + v;
    assert(s[x.len() as int] == ':');
    assert(t[u.len() as int] == ':');
    if x.len() < u.len() {
        assert(t[x.len() as int] == u[x.len() as int]);
    }
    if u.len() < x.len() {
        assert(s[u.len() as int] == x[u.len() as int]);
    }
    assert(x =~= s.take(x.len() as int));
    assert(u =~= t.take(x.len() as int));
    assert(y =~= s.skip(x.len() as int + 1));
    assert(v =~= t.skip(x.len() as int + 1));
}

/// How long a severity is when it is written: only the unknown ones differ in
/// more than their length.
proof fn lemma_severity_length(a: Option<DiagnosticSeverity>)
    ensures
        no_colon(diagnostics::severity_text(a)),
        match a {
            None => diagnostics::severity_text(a).len() == 4,
            Some(DiagnosticSeverity::Error) => diagnostics::severity_text(a).len() == 11,
            Some(DiagnosticSeverity::Warning) => diagnostics::severity_text(a).len() == 13,
            Some(DiagnosticSeverity::Information) => diagnostics::severity_text(a).len() == 17,
            Some(DiagnosticSeverity::Hint) => diagnostics::severity_text(a).len() == 10,
            Some(DiagnosticSeverity::Other(n)) => diagnostics::severity_text(a).len() > 24
                && diagnostics::severity_text(a).subrange(
                24,
                diagnostics::severity_text(a).len() - 2,
            ) == text::int_text(n as int),
        },
{
    reveal_strlit("None");
    reveal_strlit("Some(Error)");
    reveal_strlit("Some(Warning)");
    reveal_strlit("Some(Information)");
    reveal_strlit("Some(Hint)");
    reveal_strlit("Some(DiagnosticSeverity(");
    reveal_strlit("))");
    let x = diagnostics::severity_text(a);
    if let Some(DiagnosticSeverity::Other(n)) = a {
        let digits = text::int_text(n as int);
        text::lemma_int_text_injective(n as int, n as int);
        assert forall|i: int| 0 <= i < x.len() implies #[trigger] x[i] != ':' by {
            if 24 <= i < 24 + digits.len() {
                assert(x[i] == digits[i - 24]);
            }
        }
        assert(x.subrange(24, x.len() - 2) =~= digits);
    }
}

/// Different severities are written differently.
proof fn lemma_severity_text(a: Option<DiagnosticSeverity>, b: Option<DiagnosticSeverity>)
    requires
        diagnostics::severity_text(a) == diagnostics::severity_text(b),
    ensures
        a == b,
{
    lemma_severity_length(a);
    lemma_severity_length(b);
    if let Some(DiagnosticSeverity::Other(n)) = a {
        if let Some(DiagnosticSeverity::Other(m)) = b {
            text::lemma_int_text_injective(n as int, m as int);
        }
    }
}

proof fn lemma_number_has_no_colon(n: nat)
    ensures
        no_colon(text::dec_text(n)),
{
    text::lemma_dec_text_digits(n);
}

/// What stands in a hashed text behind the first number, the second and so on.
spec fn behind(d: DiagnosticView, n: int) -> Seq<char>
    decreases 5 - n,
{
    if n == 1 {
        text::dec_text(d.range.start.character as nat) + ":"@ + behind(d, 2)
    } else if n == 2 {
        text::dec_text(d.range.end.line as nat) + ":"@ + behind(d, 3)
    } else if n == 3 {
        text::dec_text(d.range.end.character as nat) + ":"@ + behind(d, 4)
    } else {
        diagnostics::severity_text(d.severity) + ":"@ + d.message
    }
}

proof fn lemma_hashed_text(d: DiagnosticView)
    ensures
        diagnostics::part_text(d) == text::dec_text(d.range.start.line as nat) + ":"@ + behind(
            d,
            1,
        ),
{
    let a = text::dec_text(d.range.start.line as nat) + ":"@;
    let b = text::dec_text(d.range.start.character as nat) + ":"@;
    let c = text::dec_text(d.range.end.line as nat) + ":"@;
    let e = text::dec_text(d.range.end.character as nat) + ":"@;
    let rest = behind(d, 4);
    assert(behind(d, 3) == e + rest);
    assert(behind(d, 2) == c + behind(d, 3));
    assert(behind(d, 1) == b + behind(d, 2));
    let ab = a + text::dec_text(d.range.start.character as nat) + ":"@;
    assert(ab =~= a + b);
    let abc = ab + text::dec_text(d.range.end.line as nat) + ":"@;
    assert(abc =~= ab + c);
    let abce = abc + text::dec_text(d.range.end.character as nat) + ":"@;
    assert(abce =~= abc + e);
    assert(diagnostics::part_text(d) =~= abce + rest);
    assert(abc + e + rest =~= abc + (e + rest));
    assert(ab + c + behind(d, 3) =~= ab + (c + behind(d, 3)));
    assert(a + b + behind(d, 2) =~= a + (b + behind(d, 2)));
}

/// The text that is hashed for a diagnostic determines where it starts and
/// ends, how bad it is and what it says.
pub proof fn law_a_hashed_text_is_read_back(a: DiagnosticView, b: DiagnosticView)
    requires
        diagnostics::part_text(a) == diagnostics::part_text(b),
    ensures
        a.range == b.range,
        a.severity == b.severity,
        a.message == b.message,
{
    let r = a.range;
    let s = b.range;
    lemma_hashed_text(a);
    lemma_hashed_text(b);
    lemma_number_has_no_colon(r.start.line as nat);
    lemma_number_has_no_colon(r.start.character as nat);
    lemma_number_has_no_colon(r.end.line as nat);
    lemma_number_has_no_colon(r.end.character as nat);
    lemma_number_has_no_colon(s.start.line as nat);
    lemma_number_has_no_colon(s.start.character as nat);
    lemma_number_has_no_colon(s.end.line as nat);
    lemma_number_has_no_colon(s.end.character as nat);
    lemma_severity_length(a.severity);
    lemma_severity_length(b.severity);
    lemma_cut_at_the_colon(
        text::dec_text(r.start.line as nat),
        behind(a, 1),
        text::dec_text(s.start.line as nat),
        behind(b, 1),
    );
    lemma_cut_at_the_colon(
        text::dec_text(r.start.character as nat),
        behind(a, 2),
        text::dec_text(s.start.character as nat),
        behind(b, 2),
    );
    lemma_cut_at_the_colon(
        text::dec_text(r.end.line as nat),
        behind(a, 3),
        text::dec_text(s.end.line as nat),
        behind(b, 3),
    );
    lemma_cut_at_the_colon(
        text::dec_text(r.end.character as nat),
        behind(a, 4),
        text::dec_text(s.end.character as nat),
        behind(b, 4),
    );
    lemma_cut_at_the_colon(
        diagnostics::severity_text(a.severity),
        a.message,
        diagnostics::severity_text(b.severity),
        b.message,
    );
    lemma_severity_text(a.severity, b.severity);
    text::lemma_dec_text_injective(r.start.line as nat, s.start.line as nat);
    text::lemma_dec_text_injective(r.start.character as nat, s.start.character as nat);
    text::lemma_dec_text_injective(r.end.line as nat, s.end.line as nat);
    text::lemma_dec_text_injective(r.end.character as nat, s.end.character as nat);
}

/// What a reader of a diagnostic is told: where it is, how bad it is and what
/// it says.
pub open spec fn told(d: DiagnosticView) -> (Range, Option<DiagnosticSeverity>, Seq<char>) {
    (d.range, d.severity, d.message)
}

/// What a floor shows of a list, as a reader is told it.
pub open spec fn told_of(list: Seq<DiagnosticView>, floor: SeverityFloor) -> Seq<
    (Range, Option<DiagnosticSeverity>, Seq<char>),
> {
    diagnostics::visible(list, floor).map_values(|d: DiagnosticView| told(d))
}

/// Where one reading of an item determines another, lists that agree in the
/// one agree in the other, whatever their order.
proof fn lemma_readings<A, B, C>(a: Seq<A>, b: Seq<A>, f: spec_fn(A) -> B, g: spec_fn(A) -> C)
    requires
        forall|x: A, y: A| #[trigger] f(x) == #[trigger] f(y) ==> g(x) == g(y),
        a.map_values(f).to_multiset() == b.map_values(f).to_multiset(),
    ensures
        a.map_values(g).to_multiset() == b.map_values(g).to_multiset(),
    decreases a.len(),
{
    let fa = a.map_values(f);
    let fb = b.map_values(f);
    let ga = a.map_values(g);
    let gb = b.map_values(g);
    fa.to_multiset_ensures();
    fb.to_multiset_ensures();
    ga.to_multiset_ensures();
    gb.to_multiset_ensures();
    if a.len() > 0 {
        let n = a.len() - 1;
        assert(fa.to_multiset().contains(fa[n])) by {
            assert(fa.contains(fa[n]));
        }
        assert(fb.contains(fa[n]));
        let i = choose|i: int| 0 <= i < fb.len() && fb[i] == fa[n];
        let a1 = a.drop_last();
        let b1 = b.remove(i);
        assert(a1.map_values(f) =~= fa.remove(n));
        assert(b1.map_values(f) =~= fb.remove(i));
        assert(a1.map_values(g) =~= ga.remove(n));
        assert(b1.map_values(g) =~= gb.remove(i));
        lemma_readings(a1, b1, f, g);
        assert(f(a[n]) == f(b[i]));
        assert(ga[n] == gb[i]);
        let x = ga[n];
        assert(ga.contains(x));
        assert(gb.contains(gb[i]));
        assert(ga.to_multiset() =~= ga.remove(n).to_multiset().insert(x));
        assert(gb.to_multiset() =~= gb.remove(i).to_multiset().insert(x));
    } else {
        assert(fb.len() == 0);
        assert(ga =~= gb);
    }
}

/// A list has a hash exactly where the floor shows something of it. The hash
/// is that of some texts, and those texts tell apart any two lists of which a
/// reader is told different things: the texts agree exactly where the same
/// places, severities and messages are shown, each as often.
pub proof fn law_the_hashed_texts_tell_lists_apart(
    a: Seq<DiagnosticView>,
    b: Seq<DiagnosticView>,
    floor_a: SeverityFloor,
    floor_b: SeverityFloor,
)
    requires
        told_of(a, floor_a).len() > 0,
        told_of(b, floor_b).len() > 0,
    ensures
        exists|x: Seq<Seq<char>>, y: Seq<Seq<char>>|
            {
                &&& diagnostics::hash_of(a, floor_a) == Some(#[trigger] diagnostics::std_hash(x))
                &&& diagnostics::hash_of(b, floor_b) == Some(#[trigger] diagnostics::std_hash(y))
                &&& x == y <==> told_of(a, floor_a).to_multiset() == told_of(
                    b,
                    floor_b,
                ).to_multiset()
            },
{
    let f = |d: DiagnosticView| diagnostics::part_text(d);
    let g = |d: DiagnosticView| told(d);
    let p = diagnostics::visible(a, floor_a);
    let q = diagnostics::visible(b, floor_b);
    let order = text::text_order();
    text::lemma_text_order();
    p.map_values(f).lemma_sort_by_ensures(order);
    q.map_values(f).lemma_sort_by_ensures(order);
    let x = p.map_values(f).sort_by(order);
    let y = q.map_values(f).sort_by(order);
    assert forall|d: DiagnosticView, e: DiagnosticView| #[trigger] f(d) == #[trigger] f(e) implies g(
        d,
    ) == g(e) by {
        law_a_hashed_text_is_read_back(d, e);
    }
    assert(forall|d: DiagnosticView, e: DiagnosticView| #[trigger]
        g(d) == #[trigger] g(e) ==> f(d) == f(e));
    assert(p.map_values(g) =~= told_of(a, floor_a));
    assert(q.map_values(g) =~= told_of(b, floor_b));
    if x == y {
        lemma_readings(p, q, f, g);
    }
    if told_of(a, floor_a).to_multiset() == told_of(b, floor_b).to_multiset() {
        lemma_readings(p, q, g, f);
        vstd::seq_lib::lemma_sorted_unique(x, y, order);
    }
    assert(diagnostics::hash_of(a, floor_a) == Some(diagnostics::std_hash(x)));
    assert(diagnostics::hash_of(b, floor_b) == Some(diagnostics::std_hash(y)));
}

/// A list has a hash exactly where one of its diagnostics passes the floor.
pub proof fn law_a_hash_means_something_shows(list: Seq<DiagnosticView>, floor: SeverityFloor)
    ensures
        diagnostics::hash_of(list, floor) is Some <==> exists|i: int|
            0 <= i < list.len() && floor.passes((#[trigger] list[i]).severity),
{
    let keep = |d: DiagnosticView| floor.passes(d.severity);
    list.filter_lemma(keep);
    let shown = diagnostics::visible(list, floor);
    assert(shown == list.filter(keep));
    if shown.len() > 0 {
        assert(shown.contains(shown[0]));
        assert(keep(shown[0]));
        list.lemma_filter_contains_rev(keep, shown[0]);
        let i = choose|i: int| 0 <= i < list.len() && list[i] == shown[0];
        assert(floor.passes(list[i].severity));
    }
    if exists|i: int| 0 <= i < list.len() && floor.passes((#[trigger] list[i]).severity) {
        let i = choose|i: int| 0 <= i < list.len() && floor.passes((#[trigger] list[i]).severity);
        assert(keep(list[i]));
        assert(shown.contains(list[i]));
    }
}

/// A floor shows the diagnostics that pass it and no others: each as often as
/// it was reported, and in the order in which they were.
pub proof fn law_a_floor_keeps_what_passes(
    before: Seq<DiagnosticView>,
    d: DiagnosticView,
    after: Seq<DiagnosticView>,
    floor: SeverityFloor,
)
    ensures
        diagnostics::visible(before + seq![d] + after, floor) == diagnostics::visible(before, floor)
            + (if floor.passes(d.severity) {
            seq![d]
        } else {
            Seq::empty()
        }) + diagnostics::visible(after, floor),
    decreases after.len(),
{
    reveal(Seq::filter);
    if after.len() == 0 {
        let whole = before + seq![d] + after;
        assert(whole.drop_last() =~= before);
        assert(whole.last() == d);
        assert(diagnostics::visible(after, floor) =~= Seq::empty());
    } else {
        law_a_floor_keeps_what_passes(before, d, after.drop_last(), floor);
        let whole = before + seq![d] + after;
        assert(whole.drop_last() =~= before + seq![d] + after.drop_last());
        assert(whole.last() == after.last());
    }
    assert(diagnostics::visible(before + seq![d] + after, floor) =~= diagnostics::visible(
        before,
        floor,
    ) + (if floor.passes(d.severity) {
        seq![d]
    } else {
        Seq::empty()
    }) + diagnostics::visible(after, floor));
}

/// Errors pass every floor that is not off, and nothing passes one that is. A
/// warning passes where an information does, and a hint only where everything
/// passes. What has no severity, or one that is unknown, passes where an
/// information does.
pub proof fn law_floors_are_ordered(floor: SeverityFloor, severity: Option<DiagnosticSeverity>)
    ensures
        floor.passes(Some(DiagnosticSeverity::Error)) <==> floor != SeverityFloor::Off,
        floor.passes(Some(DiagnosticSeverity::Warning)) <==> (floor != SeverityFloor::Off && floor
            != SeverityFloor::Error),
        floor.passes(Some(DiagnosticSeverity::Information)) <==> (floor
            == SeverityFloor::Information || floor == SeverityFloor::Hint),
        floor.passes(Some(DiagnosticSeverity::Hint)) <==> floor == SeverityFloor::Hint,
        floor.passes(None) == floor.passes(Some(DiagnosticSeverity::Information)),
        severity matches Some(DiagnosticSeverity::Other(_)) ==> floor.passes(severity)
            == floor.passes(None),
        SeverityFloor::Hint.passes(severity),
        !SeverityFloor::Off.passes(severity),
{
}

} // verus!
