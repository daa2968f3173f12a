//! What messages name, and how texts compare.

use crate::clock::Duration;
use crate::diagnostics::{Position, Range};
use crate::edit_requests;
use crate::edits;
use crate::encoding;
use crate::encoding::PositionEncoding;
use crate::endpoint;
use crate::frontend;
use crate::frontend::PlaceView;
use crate::handshake::{HandshakeView, RefusalView, ReplyView, StampView};
use crate::journal;
use crate::offsets;
use crate::plan;
use crate::text;
use crate::user_control;
use vstd::prelude::*;
use vstd::string::*;

verus! {

/// Whether `part` stands somewhere in `whole`.
pub open spec fn names(whole: Seq<char>, part: Seq<char>) -> bool {
    exists|i: int| #[trigger] stands_at(whole, part, i)
}

/// Whether `part` stands in `whole` at `i`.
pub open spec fn stands_at(whole: Seq<char>, part: Seq<char>, i: int) -> bool {
    0 <= i <= whole.len() - part.len() && whole.subrange(i, i + part.len()) == part
}

proof fn lemma_ends_with(a: Seq<char>, part: Seq<char>)
    ensures
        names(a + part, part),
{
    assert((a + part).subrange(a.len() as int, a.len() as int + part.len()) =~= part);
    assert(stands_at(a + part, part, a.len() as int));
}

proof fn lemma_goes_on(a: Seq<char>, part: Seq<char>, more: Seq<char>)
    requires
        names(a, part),
    ensures
        names(a + more, part),
{
    let i = choose|i: int| #[trigger] stands_at(a, part, i);
    assert((a + more).subrange(i, i + part.len()) =~= a.subrange(i, i + part.len()));
    assert(stands_at(a + more, part, i));
}

proof fn lemma_comes_after(a: Seq<char>, whole: Seq<char>, part: Seq<char>)
    requires
        names(whole, part),
    ensures
        names(a + whole, part),
{
    let i = choose|i: int| #[trigger] stands_at(whole, part, i);
    let at = a.len() + i;
    assert((a + whole).subrange(at, at + part.len()) =~= whole.subrange(i, i + part.len()));
    assert(stands_at(a + whole, part, at));
}

/// A session with another configuration than the backend's is told both
/// fingerprints.
pub proof fn law_a_note_names_both_configurations(backend: StampView, theirs: StampView)
    ensures
        names(endpoint::note_text(backend, theirs), backend.fingerprint),
        names(endpoint::note_text(backend, theirs), theirs.fingerprint),
{
    let a = "NOTE: this session's mcpls configuration (fingerprint "@;
    let b = ", from "@;
    let c =
        ") differs from the one the shared backend for this project started with (fingerprint "@;
    let d =
        "). The backend's configuration is in effect. Restart every session in this checkout to apply one configuration."@;
    let s = endpoint::source_text(theirs.source);
    let t = endpoint::source_text(backend.source);
    let one = a + theirs.fingerprint;
    lemma_ends_with(a, theirs.fingerprint);
    lemma_goes_on(one, theirs.fingerprint, b);
    lemma_goes_on(one + b, theirs.fingerprint, s);
    lemma_goes_on(one + b + s, theirs.fingerprint, c);
    let two = one + b + s + c;
    lemma_goes_on(two, theirs.fingerprint, backend.fingerprint);
    lemma_ends_with(two, backend.fingerprint);
    let three = two + backend.fingerprint;
    lemma_goes_on(three, theirs.fingerprint, b);
    lemma_goes_on(three, backend.fingerprint, b);
    lemma_goes_on(three + b, theirs.fingerprint, t);
    lemma_goes_on(three + b, backend.fingerprint, t);
    lemma_goes_on(three + b + t, theirs.fingerprint, d);
    lemma_goes_on(three + b + t, backend.fingerprint, d);
}

/// Why a session has no tools names the checkout, and beside it what a reader
/// needs: the error that was met, or the log.
pub proof fn law_a_failed_start_names_the_checkout(
    place: PlaceView,
    error: Seq<char>,
    wait: Duration,
)
    ensures
        names(frontend::start_failed_text(place, error), place.root),
        names(frontend::start_failed_text(place, error), error),
        names(frontend::did_not_start_text(place, wait), place.root),
        names(frontend::did_not_start_text(place, wait), place.log),
        names(frontend::busy_starting_text(place, wait), place.root),
        names(frontend::busy_starting_text(place, wait), place.log),
        names(frontend::busy_endpoint_text(place), place.root),
        names(frontend::waiting_text(place), place.root),
{
    let a = "Tell the user: mcpls could not start a backend for "@;
    let b = ": "@;
    let c =
        ". This session has no mcpls tools. Restart the session after fixing it, or run mcpls with --no-backend."@;
    lemma_ends_with(a, place.root);
    lemma_goes_on(a + place.root, place.root, b);
    lemma_goes_on(a + place.root + b, place.root, error);
    lemma_ends_with(a + place.root + b, error);
    lemma_goes_on(a + place.root + b + error, place.root, c);
    lemma_goes_on(a + place.root + b + error, error, c);
    let n = text::dec_text(frontend::seconds(wait));
    let a = "Tell the user: the mcpls backend for "@;
    let b = " did not answer within "@;
    let c = "s of being started, so this session has no mcpls tools. Its log is "@;
    let d = ". Restart the session after fixing it, or run mcpls with --no-backend."@;
    lemma_ends_with(a, place.root);
    lemma_goes_on(a + place.root, place.root, b);
    lemma_goes_on(a + place.root + b, place.root, n);
    lemma_goes_on(a + place.root + b + n, place.root, c);
    lemma_goes_on(a + place.root + b + n + c, place.root, place.log);
    lemma_ends_with(a + place.root + b + n + c, place.log);
    lemma_goes_on(a + place.root + b + n + c + place.log, place.root, d);
    lemma_goes_on(a + place.root + b + n + c + place.log, place.log, d);
    let a = "Tell the user: another mcpls held the lock for starting the backend for "@;
    let b = " for over "@;
    let c = "s, so this session has no mcpls tools. Its log is "@;
    let d = "."@;
    lemma_ends_with(a, place.root);
    lemma_goes_on(a + place.root, place.root, b);
    lemma_goes_on(a + place.root + b, place.root, n);
    lemma_goes_on(a + place.root + b + n, place.root, c);
    lemma_goes_on(a + place.root + b + n + c, place.root, place.log);
    lemma_ends_with(a + place.root + b + n + c, place.log);
    lemma_goes_on(a + place.root + b + n + c + place.log, place.root, d);
    lemma_goes_on(a + place.root + b + n + c + place.log, place.log, d);
    let a = "Tell the user: the mcpls backend endpoint for "@;
    lemma_ends_with(a, place.root);
    lemma_goes_on(
        a + place.root,
        place.root,
        " stayed busy while this session tried to attach, so this session has no mcpls tools. Restart the session after the other mcpls session finishes, or run mcpls with --no-backend."@,
    );
    let a = "mcpls is waiting for its backend for "@;
    lemma_ends_with(a, place.root);
    lemma_goes_on(
        a + place.root,
        place.root,
        ". On Windows a hook starts it, so the mcpls plugin's hooks must be installed; tools answer once one has fired. If they are not installed, tell the user to run mcpls with --no-backend."@,
    );
}

/// A session that is refused for its build is told its own version and the
/// backend's, and the checkout that the backend serves.
pub proof fn law_a_refused_build_is_told_both_versions(
    place: PlaceView,
    request: HandshakeView,
    reply: ReplyView,
)
    requires
        reply.refusal == Some(RefusalView::Build),
    ensures
        names(frontend::refused_text(place, request, reply), request.version),
        names(frontend::refused_text(place, request, reply), reply.version),
        names(frontend::refused_text(place, request, reply), place.root),
{
    let a = "Tell the user: this session's mcpls is version "@;
    let mine = a + request.version;
    lemma_ends_with(a, request.version);
    if frontend::is_older(request, reply) {
        let b = ", older than the version "@;
        let c = " backend already serving "@;
        let d =
            ", so this session has no mcpls tools. Update the mcpls this session launches, or restart the session with the newer one."@;
        lemma_goes_on(mine, request.version, b);
        lemma_goes_on(mine + b, request.version, reply.version);
        lemma_ends_with(mine + b, reply.version);
        let both = mine + b + reply.version;
        lemma_goes_on(both, request.version, c);
        lemma_goes_on(both, reply.version, c);
        lemma_goes_on(both + c, request.version, place.root);
        lemma_goes_on(both + c, reply.version, place.root);
        lemma_ends_with(both + c, place.root);
        lemma_goes_on(both + c + place.root, request.version, d);
        lemma_goes_on(both + c + place.root, reply.version, d);
        lemma_goes_on(both + c + place.root, place.root, d);
    } else {
        let b = " but the backend serving "@;
        let c = " is version "@;
        let d = " with "@;
        let n = text::dec_text(reply.sessions as nat);
        let e =
            " other session(s) attached, so this session has no mcpls tools. Restart those sessions to upgrade the backend, then restart this one."@;
        lemma_goes_on(mine, request.version, b);
        lemma_goes_on(mine + b, request.version, place.root);
        lemma_ends_with(mine + b, place.root);
        let there = mine + b + place.root;
        lemma_goes_on(there, request.version, c);
        lemma_goes_on(there, place.root, c);
        lemma_goes_on(there + c, request.version, reply.version);
        lemma_goes_on(there + c, place.root, reply.version);
        lemma_ends_with(there + c, reply.version);
        let both = there + c + reply.version;
        lemma_goes_on(both, request.version, d);
        lemma_goes_on(both, place.root, d);
        lemma_goes_on(both, reply.version, d);
        lemma_goes_on(both + d, request.version, n);
        lemma_goes_on(both + d, place.root, n);
        lemma_goes_on(both + d, reply.version, n);
        lemma_goes_on(both + d + n, request.version, e);
        lemma_goes_on(both + d + n, place.root, e);
        lemma_goes_on(both + d + n, reply.version, e);
    }
}

/// An edit that is refused names the document.
pub proof fn law_a_refused_edit_names_the_document(uri: Seq<char>, lower: Range, upper: Range)
    ensures
        names(plan::twice_message(uri), uri),
        names(plan::overlap_message(uri, lower, upper), uri),
        names(plan::overlap_message(uri, lower, upper), plan::range_text(lower)),
        names(plan::overlap_message(uri, lower, upper), plan::range_text(upper)),
{
    let rest =
        " is addressed by two entries of one workspace edit: the second's ranges were computed against the text before the first, so applying both would corrupt it"@;
    lemma_ends_with(Seq::empty(), uri);
    assert(Seq::<char>::empty() + uri =~= uri);
    lemma_goes_on(uri, uri, rest);
    let a = "overlapping edits in "@;
    let b = ": "@;
    let c = " and "@;
    let x = plan::range_text(lower);
    let y = plan::range_text(upper);
    lemma_ends_with(a, uri);
    lemma_goes_on(a + uri, uri, b);
    lemma_goes_on(a + uri + b, uri, x);
    lemma_ends_with(a + uri + b, x);
    lemma_goes_on(a + uri + b + x, uri, c);
    lemma_goes_on(a + uri + b + x, x, c);
    lemma_goes_on(a + uri + b + x + c, uri, y);
    lemma_goes_on(a + uri + b + x + c, x, y);
    lemma_ends_with(a + uri + b + x + c, y);
}

/// A place that is refused is named by its line or its column, and a range by
/// its two offsets.
pub proof fn law_a_refused_place_is_named(
    line: u32,
    count: nat,
    position: Position,
    start: nat,
    end: nat,
)
    ensures
        names(offsets::beyond_message(line, count), text::dec_text(line as nat)),
        names(offsets::beyond_message(line, count), text::dec_text(count)),
        names(offsets::boundary_message(position), text::dec_text(position.character as nat)),
        names(offsets::boundary_message(position), text::dec_text(position.line as nat)),
        names(offsets::inverted_message(start, end), text::dec_text(start)),
        names(offsets::inverted_message(start, end), text::dec_text(end)),
{
    let x = text::dec_text(line as nat);
    let y = text::dec_text(count);
    let a = "line "@;
    let b = " is beyond the document, which has "@;
    lemma_ends_with(a, x);
    lemma_goes_on(a + x, x, b);
    lemma_goes_on(a + x + b, x, y);
    lemma_ends_with(a + x + b, y);
    lemma_goes_on(a + x + b + y, x, " lines"@);
    lemma_goes_on(a + x + b + y, y, " lines"@);
    let x = text::dec_text(position.character as nat);
    let y = text::dec_text(position.line as nat);
    let a = "column "@;
    let b = " on line "@;
    lemma_ends_with(a, x);
    lemma_goes_on(a + x, x, b);
    lemma_goes_on(a + x + b, x, y);
    lemma_ends_with(a + x + b, y);
    lemma_goes_on(a + x + b + y, x, ": not a character boundary"@);
    lemma_goes_on(a + x + b + y, y, ": not a character boundary"@);
    let x = text::dec_text(end);
    let y = text::dec_text(start);
    let a = "range end "@;
    let b = " precedes start "@;
    lemma_ends_with(a, x);
    lemma_goes_on(a + x, x, b);
    lemma_goes_on(a + x + b, x, y);
    lemma_ends_with(a + x + b, y);
}

/// An action that cannot be picked is named as the caller named it: by its
/// number, with how many there are or with the title that stands there now, or
/// by its title.
pub proof fn law_an_unpicked_action_is_named(
    index: usize,
    count: nat,
    now: Seq<char>,
    title: Seq<char>,
)
    ensures
        names(edits::out_of_range(index, count), text::dec_text(index as nat)),
        names(edits::out_of_range(index, count), text::dec_text(count)),
        names(edits::moved(index, now, title), text::dec_text(index as nat)),
        names(edits::moved(index, now, title), now),
        names(edits::moved(index, now, title), title),
        names(edits::not_titled(title), title),
        names(edits::ambiguous(title), title),
        names(edit_requests::does_nothing(title), title),
{
    let x = text::dec_text(index as nat);
    let y = text::dec_text(count);
    let a = "action index "@;
    let b = " is out of range: "@;
    lemma_ends_with(a, x);
    lemma_goes_on(a + x, x, b);
    lemma_goes_on(a + x + b, x, y);
    lemma_ends_with(a + x + b, y);
    lemma_goes_on(a + x + b + y, x, " actions available"@);
    lemma_goes_on(a + x + b + y, y, " actions available"@);
    let b = " is now "@;
    let c = ", not "@;
    let d = ": the list changed since get_code_actions produced it, so read it again"@;
    lemma_goes_on(a + x, x, b);
    lemma_goes_on(a + x + b, x, now);
    lemma_ends_with(a + x + b, now);
    lemma_goes_on(a + x + b + now, x, c);
    lemma_goes_on(a + x + b + now, now, c);
    lemma_goes_on(a + x + b + now + c, x, title);
    lemma_goes_on(a + x + b + now + c, now, title);
    lemma_ends_with(a + x + b + now + c, title);
    lemma_goes_on(a + x + b + now + c + title, x, d);
    lemma_goes_on(a + x + b + now + c + title, now, d);
    lemma_goes_on(a + x + b + now + c + title, title, d);
    lemma_ends_with("no code action titled "@, title);
    lemma_ends_with("title "@, title);
    lemma_goes_on(
        "title "@ + title,
        title,
        " is ambiguous: more than one action shares it, select by index instead"@,
    );
    lemma_ends_with("code action "@, title);
    lemma_goes_on(
        "code action "@ + title,
        title,
        " resolved to neither an edit nor a command"@,
    );
}

proof fn lemma_joined_names(texts: Seq<Seq<char>>, between: Seq<char>, i: int)
    requires
        0 <= i < texts.len(),
    ensures
        names(user_control::joined(texts, between), texts[i]),
    decreases texts.len(),
{
    if texts.len() == 1 {
        lemma_ends_with(Seq::empty(), texts[0]);
        assert(Seq::<char>::empty() + texts[0] =~= texts[0]);
    } else {
        let head = user_control::joined(texts.drop_last(), between);
        if i < texts.len() - 1 {
            lemma_joined_names(texts.drop_last(), between, i);
            lemma_goes_on(head, texts[i], between);
            lemma_goes_on(head + between, texts[i], texts.last());
        } else {
            lemma_ends_with(head + between, texts.last());
        }
    }
}

/// A refused action names every server that does not apply, and every one that
/// does.
pub proof fn law_unknown_servers_are_named(
    unknown: Seq<Seq<char>>,
    applicable: Seq<Seq<char>>,
    i: int,
)
    ensures
        0 <= i < unknown.len() ==> names(
            user_control::unknown_text(unknown, applicable),
            unknown[i],
        ),
        0 <= i < applicable.len() ==> names(
            user_control::unknown_text(unknown, applicable),
            applicable[i],
        ),
{
    let a = "no language server named "@;
    let list = user_control::joined(unknown, ", "@);
    let b = " applies here; "@;
    let end = if applicable.len() == 0 {
        "none do"@
    } else {
        "these do: "@ + user_control::joined(applicable, ", "@)
    };
    if 0 <= i < unknown.len() {
        lemma_joined_names(unknown, ", "@, i);
        lemma_comes_after(a, list, unknown[i]);
        lemma_goes_on(a + list, unknown[i], b);
        lemma_goes_on(a + list + b, unknown[i], end);
    }
    if 0 <= i < applicable.len() {
        lemma_joined_names(applicable, ", "@, i);
        lemma_comes_after(
            "these do: "@,
            user_control::joined(applicable, ", "@),
            applicable[i],
        );
        lemma_comes_after(a + list + b, end, applicable[i]);
    }
}

/// A file that could not be moved back is named with where it is and why.
pub proof fn law_a_stranded_file_is_named(file: Seq<char>, at: Seq<char>, e: Seq<char>)
    ensures
        names(journal::stranded_message(file, at, e), file),
        names(journal::stranded_message(file, at, e), at),
        names(journal::stranded_message(file, at, e), e),
{
    let a = " is at "@;
    let b = " ("@;
    let c = ")"@;
    lemma_ends_with(Seq::empty(), file);
    assert(Seq::<char>::empty() + file =~= file);
    lemma_goes_on(file, file, a);
    lemma_goes_on(file + a, file, at);
    lemma_ends_with(file + a, at);
    lemma_goes_on(file + a + at, file, b);
    lemma_goes_on(file + a + at, at, b);
    lemma_goes_on(file + a + at + b, file, e);
    lemma_goes_on(file + a + at + b, at, e);
    lemma_ends_with(file + a + at + b, e);
    lemma_goes_on(file + a + at + b + e, file, c);
    lemma_goes_on(file + a + at + b + e, at, c);
    lemma_goes_on(file + a + at + b + e, e, c);
}

/// Of two texts the one with the smaller code point at the first place where
/// they differ comes first, and a beginning of a text comes before the text.
pub proof fn law_texts_are_ordered_by_code_points(a: Seq<char>, b: Seq<char>, i: int)
    requires
        0 <= i <= a.len(),
        i < b.len(),
        forall|j: int| 0 <= j < i ==> #[trigger] a[j] == b[j],
        i < a.len() ==> (a[i] as int) < (b[i] as int),
    ensures
        text::text_leq(a, b),
        !text::text_leq(b, a),
    decreases i,
{
    if i > 0 {
        let x = a.drop_first();
        let y = b.drop_first();
        assert(a[0] == b[0]);
        assert forall|j: int| 0 <= j < i - 1 implies #[trigger] x[j] == y[j] by {
            assert(a[j + 1] == b[j + 1]);
        }
        law_texts_are_ordered_by_code_points(x, y, i - 1);
    }
}

/// Texts are the same but for their case exactly where they become the same
/// once every capital letter between `A` and `Z` is a small one: no other
/// characters are taken for each other.
pub proof fn law_only_ascii_letters_lose_their_case(a: char, b: char)
    ensures
        text::lower(a) == text::lower(b) <==> {
            ||| a == b
            ||| 'A' <= a <= 'Z' && b as int == a as int + 32
            ||| 'A' <= b <= 'Z' && a as int == b as int + 32
        },
{
}

/// Being the same but for the case is an equivalence.
pub proof fn law_ignoring_case_is_an_equivalence(a: Seq<char>, b: Seq<char>, c: Seq<char>)
    ensures
        text::same_ignoring_case(a, a),
        text::same_ignoring_case(a, b) == text::same_ignoring_case(b, a),
        text::same_ignoring_case(a, b) && text::same_ignoring_case(b, c)
            ==> text::same_ignoring_case(a, c),
        text::same_ignoring_case(a, b) ==> a.len() == b.len(),
{
    if text::same_ignoring_case(a, b) && text::same_ignoring_case(b, c) {
        assert forall|i: int| 0 <= i < a.len() implies text::lower(#[trigger] a[i]) == text::lower(
            c[i],
        ) by {
            assert(text::lower(b[i]) == text::lower(c[i]));
        }
    }
}

/// Bytes and characters are counted only with a server that says so; with any
/// other, columns count sixteen-bit units.
pub proof fn law_what_columns_count(name: Seq<char>)
    ensures
        encoding::agreed(None) == PositionEncoding::Utf16,
        encoding::agreed(Some(name)) == PositionEncoding::Utf8 <==> name == "utf-8"@,
        encoding::agreed(Some(name)) == PositionEncoding::Utf32 <==> name == "utf-32"@,
        encoding::named(name) matches Some(e) ==> encoding::agreed(Some(name)) == e,
{
    reveal_strlit("utf-8");
    reveal_strlit("utf-16");
    reveal_strlit("utf-32");
    assert("utf-8"@.len() == 5);
    assert("utf-16"@.len() == 6);
    assert("utf-32"@.len() == 6);
    assert("utf-16"@[4] == '1');
    assert("utf-32"@[4] == '3');
}

/// What is said of a configuration tells the three apart: one that loaded the
/// project's file, one that ignored it, and one that does not use it.
pub proof fn law_the_use_of_the_project_file_is_told(stamp: StampView)
    ensures
        frontend::trust_text(stamp)[0] == 'l' <==> stamp.source
            == crate::config::ConfigSource::Project,
        frontend::trust_text(stamp)[0] == 'i' <==> stamp.source
            != crate::config::ConfigSource::Project && stamp.project_ignored,
        frontend::trust_text(stamp)[0] == 'd' <==> stamp.source
            != crate::config::ConfigSource::Project && !stamp.project_ignored,
{
    reveal_strlit("loaded the project's mcpls.toml as trusted");
    reveal_strlit("ignored the project's mcpls.toml as untrusted");
    reveal_strlit("does not use the project's mcpls.toml");
}

} // verus!
