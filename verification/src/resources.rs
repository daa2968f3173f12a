//! The URIs of diagnostic resources, and who is subscribed to which.
//!
//! A resource is one file's diagnostics. Its URI has an empty authority and a
//! percent-encoded path under a scheme of its own.

use crate::identity::ConnectionId;
use crate::table;
use crate::table::{Key, KeySet, Table};
use crate::text::{after, characters, joined, starts_with};
use crate::uris;
use crate::uris::{file_path_of, file_url_of};
use vstd::prelude::*;
use vstd::string::*;

verus! {

/// The most resources that one connection may be subscribed to.
pub const MAX_SUBSCRIPTIONS: usize = 1_000;

/// What goes wrong between paths and resource URIs.
#[derive(Clone, Debug, PartialEq, Eq)]
pub enum ResourceUriError {
    /// The path is not absolute.
    InvalidPath(String),
    /// The URI has the wrong scheme or malformed structure.
    InvalidScheme(String),
    /// The URI's path could not be decoded to a file path.
    DecodeFailed(String),
}

/// What a [`ResourceUriError`] stands for.
pub enum UriErrorView {
    /// The path is not absolute.
    InvalidPath(Seq<char>),
    /// The URI has the wrong scheme or malformed structure.
    InvalidScheme(Seq<char>),
    /// The URI's path could not be decoded to a file path.
    DecodeFailed(Seq<char>),
}

impl DeepView for ResourceUriError {
    type V = UriErrorView;

    open spec fn deep_view(&self) -> UriErrorView {
        match self {
            ResourceUriError::InvalidPath(s) => UriErrorView::InvalidPath(s@),
            ResourceUriError::InvalidScheme(s) => UriErrorView::InvalidScheme(s@),
            ResourceUriError::DecodeFailed(s) => UriErrorView::DecodeFailed(s@),
        }
    }
}

impl ResourceUriError {
    /// The error in words.
    pub fn to_text(&self) -> (r: String)
        ensures
            r@ == match self.deep_view() {
                UriErrorView::InvalidPath(s) => "path must be absolute and valid UTF-8: "@ + s,
                UriErrorView::InvalidScheme(s) => "expected 'lsp-diagnostics:///' prefix in URI: "@
                    + s,
                UriErrorView::DecodeFailed(s) => "failed to decode URI to filesystem path: "@ + s,
            },
    {
        match self {
            ResourceUriError::InvalidPath(s) => joined(
                "path must be absolute and valid UTF-8: ",
                s,
            ),
            ResourceUriError::InvalidScheme(s) => joined(
                "expected 'lsp-diagnostics:///' prefix in URI: ",
                s,
            ),
            ResourceUriError::DecodeFailed(s) => joined(
                "failed to decode URI to filesystem path: ",
                s,
            ),
        }
    }
}

/// What an operation on URIs came to, in the terms that contracts speak of.
pub open spec fn uri_outcome(r: Result<String, ResourceUriError>) -> Result<
    Seq<char>,
    UriErrorView,
> {
    match r {
        Ok(s) => Ok(s@),
        Err(e) => Err(e.deep_view()),
    }
}

/// What decoding a URI to a path came to, in the terms that contracts speak of.
pub open spec fn path_result(r: Result<Vec<u8>, ResourceUriError>) -> Result<
    Seq<u8>,
    UriErrorView,
> {
    match r {
        Ok(path) => Ok(path@),
        Err(e) => Err(e.deep_view()),
    }
}

/// A `file` URL as a resource URI: escaped, and under the resource scheme.
pub open spec fn resource_uri_of(url: Seq<char>) -> Seq<char> {
    let encoded = uris::escaped(url);
    "lsp-diagnostics"@ + if "file"@.is_prefix_of(encoded) {
        encoded.skip(4)
    } else {
        encoded
    }
}

/// A path has a resource URI exactly where it has a `file` URL, and is named
/// where it has none. The URI leads back to that URL.
pub proof fn law_what_a_path_becomes(path: Seq<char>)
    ensures
        uris::file_url(path) is None ==> uri_of(path) == Err::<Seq<char>, UriErrorView>(
            UriErrorView::InvalidPath(path),
        ),
        uris::file_url(path) is Some ==> uri_of(path) is Ok,
        uris::file_url(path) is Some && "file:///"@.is_prefix_of(uris::file_url(path)->Some_0)
            ==> file_uri_of(uri_of(path)->Ok_0) == Ok::<Seq<char>, UriErrorView>(
            uris::escaped(uris::file_url(path)->Some_0),
        ),
{
    if uris::file_url(path) is Some && "file:///"@.is_prefix_of(uris::file_url(path)->Some_0) {
        law_the_scheme_can_be_swapped_back(uris::file_url(path)->Some_0);
    }
}

/// The resource URI of a path.
pub open spec fn uri_of(path: Seq<char>) -> Result<Seq<char>, UriErrorView> {
    match uris::file_url(path) {
        Some(url) => Ok(resource_uri_of(url)),
        None => Err(UriErrorView::InvalidPath(path)),
    }
}

/// The `file` URI behind a resource URI. The scheme must be the resource
/// scheme, and the authority must be empty.
pub open spec fn file_uri_of(uri: Seq<char>) -> Result<Seq<char>, UriErrorView> {
    let prefix = "lsp-diagnostics://"@;
    if !prefix.is_prefix_of(uri) {
        Err(UriErrorView::InvalidScheme(uri))
    } else if !"/"@.is_prefix_of(uri.skip(prefix.len() as int)) {
        Err(UriErrorView::InvalidScheme("non-empty authority in URI: "@ + uri))
    } else {
        Ok("file://"@ + uri.skip(prefix.len() as int))
    }
}

/// The path, given what the `file` URI was decoded to.
pub open spec fn decoded(
    file_uri: Seq<char>,
    path: Result<Option<Seq<u8>>, Seq<char>>,
) -> Result<Seq<u8>, UriErrorView> {
    match path {
        Ok(Some(p)) => Ok(p),
        Ok(None) => Err(UriErrorView::DecodeFailed(file_uri)),
        Err(reason) => Err(UriErrorView::DecodeFailed(reason)),
    }
}

/// The path, in bytes, that a resource URI stands for.
pub open spec fn path_of(uri: Seq<char>) -> Result<Seq<u8>, UriErrorView> {
    match file_uri_of(uri) {
        Ok(file_uri) => decoded(file_uri, uris::url_file_path(file_uri)),
        Err(e) => Err(e),
    }
}

/// What stands for one character.
fn push_escaped(r: &mut String, c: char)
    ensures
        final(r)@ == old(r)@ + uris::escape(c),
{
    if c == '[' {
        r.append("%5B");
    } else if c == ']' {
        r.append("%5D");
    } else if c == '^' {
        r.append("%5E");
    } else if c == '|' {
        r.append("%7C");
    } else {
        r.push(c);
        assert(r@ =~= old(r)@ + seq![c]);
    }
}

/// A text with four characters escaped that URLs leave as they are.
pub fn encode_path_chars(url: &str) -> (r: String)
    ensures
        r@ == uris::escaped(url@),
{
    let chars = characters(url);
    let mut r = String::new();
    let mut i: usize = 0;
    assert(chars@.take(0) =~= Seq::<char>::empty());
    assert(r@ =~= Seq::<char>::empty());
    while i < chars.len()
        invariant
            chars@ == url@,
            i <= chars.len(),
            r@ == uris::escaped(chars@.take(i as int)),
        decreases chars.len() - i,
    {
        push_escaped(&mut r, chars[i]);
        i = i + 1;
        assert(chars@.take(i as int).drop_last() =~= chars@.take(i - 1));
    }
    assert(chars@.take(i as int) =~= chars@);
    r
}

/// The resource URI for a `file` URL.
pub fn resource_uri(url: &str) -> (r: String)
    ensures
        r@ == resource_uri_of(url@),
{
    let encoded = encode_path_chars(url);
    proof {
        reveal_strlit("file");
    }
    if starts_with(&encoded, "file") {
        joined("lsp-diagnostics", &after(&encoded, 4))
    } else {
        joined("lsp-diagnostics", &encoded)
    }
}

proof fn lemma_escaped_prefix(prefix: Seq<char>, s: Seq<char>)
    requires
        prefix.is_prefix_of(s),
        forall|i: int| 0 <= i < prefix.len() ==> uris::escape(#[trigger] prefix[i]) == seq![prefix[i]],
    ensures
        prefix.is_prefix_of(uris::escaped(s)),
    decreases s.len(),
{
    if s.len() == prefix.len() {
        assert(s =~= prefix);
        lemma_escaped_plain(s);
    } else {
        assert(prefix.is_prefix_of(s.drop_last())) by {
            assert(prefix =~= s.drop_last().subrange(0, prefix.len() as int));
        }
        lemma_escaped_prefix(prefix, s.drop_last());
        let e = uris::escaped(s.drop_last());
        assert(prefix =~= uris::escaped(s).subrange(0, prefix.len() as int));
    }
}

proof fn lemma_escaped_plain(s: Seq<char>)
    requires
        forall|i: int| 0 <= i < s.len() ==> uris::escape(#[trigger] s[i]) == seq![s[i]],
    ensures
        uris::escaped(s) == s,
    decreases s.len(),
{
    if s.len() > 0 {
        assert forall|i: int| 0 <= i < s.drop_last().len() implies uris::escape(
            #[trigger] s.drop_last()[i],
        ) == seq![s.drop_last()[i]] by {
            assert(s[i] == s.drop_last()[i]);
        }
        lemma_escaped_plain(s.drop_last());
        assert(uris::escape(s[s.len() - 1]) == seq![s.last()]);
        assert(s.drop_last() + seq![s.last()] =~= s);
    }
}

/// A resource URI made of a `file` URL leads back to that URL, escaped.
pub proof fn law_the_scheme_can_be_swapped_back(url: Seq<char>)
    requires
        "file:///"@.is_prefix_of(url),
    ensures
        file_uri_of(resource_uri_of(url)) == Ok::<Seq<char>, UriErrorView>(uris::escaped(url)),
{
    reveal_strlit("file");
    reveal_strlit("file://");
    reveal_strlit("file:///");
    reveal_strlit("lsp-diagnostics");
    reveal_strlit("lsp-diagnostics://");
    reveal_strlit("/");
    let start = "file:///"@;
    assert forall|i: int| 0 <= i < start.len() implies uris::escape(#[trigger] start[i])
        == seq![start[i]] by {
        assert(start[i] == 'f' || start[i] == 'i' || start[i] == 'l' || start[i] == 'e' || start[i]
            == ':' || start[i] == '/');
    }
    lemma_escaped_prefix(start, url);
    let encoded = uris::escaped(url);
    assert forall|i: int| 0 <= i < start.len() implies encoded[i] == #[trigger] start[i] by {
        assert(encoded.subrange(0, start.len() as int)[i] == start[i]);
    }
    assert(start[4] == ':' && start[5] == '/' && start[6] == '/' && start[7] == '/');
    assert(encoded[4] == ':' && encoded[5] == '/' && encoded[6] == '/' && encoded[7] == '/');
    assert("file"@ =~= encoded.subrange(0, 4));
    let uri = resource_uri_of(url);
    assert(uri =~= "lsp-diagnostics"@ + encoded.skip(4));
    let prefix = "lsp-diagnostics://"@;
    assert(uri[15] == encoded[4] && uri[16] == encoded[5] && uri[17] == encoded[6]);
    assert(prefix =~= uri.subrange(0, prefix.len() as int));
    let rest = uri.skip(prefix.len() as int);
    assert(rest =~= encoded.skip(7));
    assert(rest[0] == encoded[7]);
    assert("/"@ =~= rest.subrange(0, 1));
    assert("file://"@ =~= encoded.take(7)) by {
        assert(encoded[0] == start[0] && encoded[1] == start[1] && encoded[2] == start[2]
            && encoded[3] == start[3]);
    }
    assert(encoded.take(7) + encoded.skip(7) =~= encoded);
}

/// Encode an absolute file path into a resource URI.
///
/// Fails exactly on a path that is not absolute. A plainly spelled path can be
/// read back from its URI.
pub fn make_uri(path: &str) -> (r: Result<String, ResourceUriError>)
    ensures
        uri_outcome(r) == uri_of(path@),
        r is Ok <==> uris::absolute(path@),
        r is Ok ==> "lsp-diagnostics:///"@.is_prefix_of(r->Ok_0@),
        uris::plain_path(path@) ==> r is Ok && path_of(r->Ok_0@) == Ok::<Seq<u8>, UriErrorView>(
            vstd::utf8::encode_utf8(path@),
        ),
{
    match file_url_of(path) {
        Some(url) => {
            proof {
                law_the_scheme_can_be_swapped_back(url@);
                reveal_strlit("lsp-diagnostics:///");
                reveal_strlit("lsp-diagnostics://");
                reveal_strlit("/");
                let uri = resource_uri_of(url@);
                let rest = uri.skip("lsp-diagnostics://"@.len() as int);
                assert(rest.subrange(0, 1)[0] == '/');
                assert forall|i: int| 0 <= i < "lsp-diagnostics://"@.len() implies uri[i]
                    == #[trigger] "lsp-diagnostics://"@[i] by {
                    assert(uri.subrange(0, "lsp-diagnostics://"@.len() as int)[i]
                        == "lsp-diagnostics://"@[i]);
                }
                assert("lsp-diagnostics:///"@ =~= uri.subrange(
                    0,
                    "lsp-diagnostics:///"@.len() as int,
                ));
            }
            Ok(resource_uri(&url))
        },
        None => Err(ResourceUriError::InvalidPath(path.to_owned())),
    }
}

/// The `file` URI behind a resource URI.
pub fn file_uri(uri: &str) -> (r: Result<String, ResourceUriError>)
    ensures
        uri_outcome(r) == file_uri_of(uri@),
{
    if !starts_with(uri, "lsp-diagnostics://") {
        return Err(ResourceUriError::InvalidScheme(uri.to_owned()));
    }
    proof {
        reveal_strlit("lsp-diagnostics://");
    }
    let rest = after(uri, 18);
    if !starts_with(&rest, "/") {
        return Err(ResourceUriError::InvalidScheme(joined("non-empty authority in URI: ", uri)));
    }
    Ok(joined("file://", &rest))
}

/// The path, given what the `file` URI was decoded to.
pub fn decoded_path(file_uri: String, path: Result<Option<Vec<u8>>, String>) -> (r: Result<
    Vec<u8>,
    ResourceUriError,
>)
    ensures
        path_result(r) == decoded(file_uri@, uris::path_outcome(path)),
{
    match path {
        Ok(Some(p)) => Ok(p),
        Ok(None) => Err(ResourceUriError::DecodeFailed(file_uri)),
        Err(reason) => Err(ResourceUriError::DecodeFailed(reason)),
    }
}

/// Decode a resource URI back to a file path, byte by byte.
pub fn parse_uri(uri: &str) -> (r: Result<Vec<u8>, ResourceUriError>)
    ensures
        path_result(r) == path_of(uri@),
{
    match file_uri(uri) {
        Ok(text) => {
            let path = file_path_of(&text);
            decoded_path(text, path)
        },
        Err(e) => Err(e),
    }
}

/// One connection's subscriptions, and the handle it is notified through.
pub struct Subscriber {
    peer: u64,
    uris: KeySet<String>,
}

/// What a [`Subscriber`] stands for.
#[verifier::ext_equal]
pub struct SubscriberView {
    /// The handle it is notified through.
    pub peer: u64,
    /// What it is subscribed to.
    pub uris: Set<Seq<char>>,
}

impl DeepView for Subscriber {
    type V = SubscriberView;

    closed spec fn deep_view(&self) -> SubscriberView {
        SubscriberView { peer: self.peer, uris: self.uris@ }
    }
}

/// Which connections want updates for which resources, and the handle each one
/// is notified through.
///
/// One process serves many connections, so a notification for a file goes to
/// the connections subscribed to that file and to no other.
pub struct ResourceSubscriptions {
    subscribers: Table<ConnectionId, Subscriber>,
}

impl View for ResourceSubscriptions {
    type V = Map<u64, SubscriberView>;

    closed spec fn view(&self) -> Map<u64, SubscriberView> {
        self.subscribers@
    }
}

/// What a connection is subscribed to.
pub open spec fn subscribed(v: Map<u64, SubscriberView>, connection: u64) -> Set<Seq<char>> {
    if v.dom().contains(connection) {
        v[connection].uris
    } else {
        Set::empty()
    }
}

/// A subscription more.
pub open spec fn with_subscription(
    v: Map<u64, SubscriberView>,
    connection: u64,
    peer: u64,
    uri: Seq<char>,
) -> (Map<u64, SubscriberView>, Result<bool, Seq<char>>) {
    let uris = subscribed(v, connection);
    if !uris.contains(uri) && uris.len() >= MAX_SUBSCRIPTIONS {
        (
            v.insert(connection, SubscriberView { peer, uris }),
            Err("subscription limit of 1000 reached"@),
        )
    } else {
        (
            v.insert(connection, SubscriberView { peer, uris: uris.insert(uri) }),
            Ok(!uris.contains(uri)),
        )
    }
}

/// A subscription less. A connection without any is forgotten.
pub open spec fn without_subscription(
    v: Map<u64, SubscriberView>,
    connection: u64,
    uri: Seq<char>,
) -> Map<u64, SubscriberView> {
    if !v.dom().contains(connection) {
        v
    } else {
        let left = v[connection].uris.remove(uri);
        if left == Set::<Seq<char>>::empty() {
            v.remove(connection)
        } else {
            v.insert(connection, SubscriberView { uris: left, ..v[connection] })
        }
    }
}

impl ResourceSubscriptions {
    /// No subscriptions.
    pub fn new() -> (r: Self)
        ensures
            r@ == Map::<u64, SubscriberView>::empty(),
    {
        ResourceSubscriptions { subscribers: Table::new() }
    }

    fn uris_of(&self, connection: ConnectionId) -> (r: KeySet<String>)
        ensures
            r@ == subscribed(self@, connection.number),
    {
        match self.subscribers.get(&connection) {
            Some(subscriber) => subscriber.uris.dup(),
            None => KeySet::new(),
        }
    }

    /// Record that `connection`, notified through `peer`, wants updates for
    /// `uri`.
    ///
    /// Says whether that is new, or why it was refused: a connection may hold
    /// no more than [`MAX_SUBSCRIPTIONS`].
    pub fn subscribe(&mut self, connection: ConnectionId, peer: u64, uri: String) -> (r: Result<
        bool,
        String,
    >)
        ensures
            ({
                let (after, outcome) = with_subscription(
                    old(self)@,
                    connection.number,
                    peer,
                    uri@,
                );
                &&& final(self)@ == after
                &&& match r {
                    Ok(new) => outcome == Ok::<bool, Seq<char>>(new),
                    Err(e) => outcome == Err::<bool, Seq<char>>(e@),
                }
            }),
    {
        let mut uris = self.uris_of(connection);
        let known = uris.has(&uri);
        if !known && uris.len() >= MAX_SUBSCRIPTIONS {
            self.subscribers.put(connection, Subscriber { peer, uris });
            return Err("subscription limit of 1000 reached".to_owned());
        }
        uris.add(uri);
        self.subscribers.put(connection, Subscriber { peer, uris });
        Ok(!known)
    }

    /// Whether no connection is subscribed to anything.
    pub fn is_empty(&self) -> (r: bool)
        ensures
            r == (self@ == Map::<u64, SubscriberView>::empty()),
    {
        self.subscribers.is_empty()
    }

    /// Remove `uri` from `connection`'s subscriptions. Returns whether it was
    /// there.
    pub fn unsubscribe(&mut self, connection: ConnectionId, uri: &String) -> (r: bool)
        ensures
            r == subscribed(old(self)@, connection.number).contains(uri@),
            final(self)@ == without_subscription(old(self)@, connection.number, uri@),
    {
        match self.subscribers.get(&connection) {
            None => false,
            Some(subscriber) => {
                let peer: u64 = subscriber.peer;
                let mut uris = subscriber.uris.dup();
                let removed = uris.has(uri);
                uris.remove(uri);
                if uris.is_empty() {
                    let _ = self.subscribers.take(&connection);
                } else {
                    self.subscribers.put(connection, Subscriber { peer, uris });
                }
                removed
            },
        }
    }

    /// Whether `connection` is subscribed to `uri`.
    pub fn contains(&self, connection: ConnectionId, uri: &String) -> (r: bool)
        ensures
            r == subscribed(self@, connection.number).contains(uri@),
    {
        match self.subscribers.get(&connection) {
            Some(subscriber) => subscriber.uris.has(uri),
            None => false,
        }
    }

    /// Every connection subscribed to `uri`, once, with the handle to notify.
    pub fn subscribers(&self, uri: &String) -> (r: Vec<(ConnectionId, u64)>)
        ensures
            forall|c: u64, p: u64| #[trigger]
                r.deep_view().contains((c, p)) <==> subscribed(self@, c).contains(uri@)
                    && self@[c].peer == p,
            r.deep_view().no_duplicates(),
    {
        let mut r: Vec<(ConnectionId, u64)> = Vec::new();
        let n: usize = self.subscribers.len();
        let ghost rows = self.subscribers.rows();
        let mut i: usize = 0;
        while i < n
            invariant
                i <= n,
                n == rows.len(),
                rows == self.subscribers.rows(),
                table::distinct_rows(rows),
                forall|c: u64, p: u64| #[trigger]
                    r.deep_view().contains((c, p)) <==> exists|j: int|
                        0 <= j < i && (#[trigger] rows[j]).0 == c && rows[j].1.peer == p
                            && rows[j].1.uris.contains(uri@),
                r.deep_view().no_duplicates(),
            decreases n - i,
        {
            let subscriber = self.subscribers.value_at(i);
            let ghost before = r.deep_view();
            let ghost row = rows[i as int];
            if subscriber.uris.has(uri) {
                r.push((self.subscribers.key_at(i).dup(), subscriber.peer));
                assert(r.deep_view() =~= before.push((row.0, row.1.peer)));
            }
            i = i + 1;
            proof {
                let pair = (row.0, row.1.peer);
                let held = row.1.uris.contains(uri@);
                assert(!before.contains(pair)) by {
                    if before.contains(pair) {
                        let j = choose|j: int|
                            0 <= j < i - 1 && (#[trigger] rows[j]).0 == pair.0 && rows[j].1.peer
                                == pair.1 && rows[j].1.uris.contains(uri@);
                        assert(rows[j].0 != rows[i - 1].0);
                    }
                }
                if held {
                    lemma_push_keeps_distinct(before, pair);
                }
                assert forall|c: u64, p: u64| #[trigger]
                    r.deep_view().contains((c, p)) <==> exists|j: int|
                        0 <= j < i && (#[trigger] rows[j]).0 == c && rows[j].1.peer == p
                            && rows[j].1.uris.contains(uri@) by {
                    if held {
                        table::lemma_push_contains(before, pair, (c, p));
                    }
                    if before.contains((c, p)) {
                        let j = choose|j: int|
                            0 <= j < i - 1 && (#[trigger] rows[j]).0 == c && rows[j].1.peer == p
                                && rows[j].1.uris.contains(uri@);
                        assert(0 <= j < i && rows[j].0 == c);
                    }
                    if held && (c, p) == pair {
                        assert(rows[i - 1].0 == c);
                    }
                }
            }
        }
        proof {
            table::lemma_rows_map(rows);
            assert forall|c: u64, p: u64| #[trigger]
                r.deep_view().contains((c, p)) <==> subscribed(self@, c).contains(uri@)
                    && self@[c].peer == p by {
                if r.deep_view().contains((c, p)) {
                    let j = choose|j: int|
                        0 <= j < n && (#[trigger] rows[j]).0 == c && rows[j].1.peer == p
                            && rows[j].1.uris.contains(uri@);
                    assert(self@.dom().contains(rows[j].0));
                }
                if subscribed(self@, c).contains(uri@) && self@[c].peer == p {
                    let j = table::row_of(rows, c);
                    assert(rows[j].0 == c);
                }
            }
        }
        r
    }

    /// Forget everything `connection` subscribed to.
    pub fn remove_connection(&mut self, connection: ConnectionId)
        ensures
            final(self)@ == old(self)@.remove(connection.number),
    {
        let _ = self.subscribers.take(&connection);
    }
}

proof fn lemma_push_keeps_distinct<A>(s: Seq<A>, x: A)
    requires
        s.no_duplicates(),
        !s.contains(x),
    ensures
        s.push(x).no_duplicates(),
{
    let t = s.push(x);
    assert forall|i: int, j: int| 0 <= i < t.len() && 0 <= j < t.len() && i != j implies t[i]
        != t[j] by {
        if i < s.len() {
            assert(s.contains(s[i]));
        }
        if j < s.len() {
            assert(s.contains(s[j]));
        }
    }
}

/// One connection's subscriptions leave every other connection's as they were.
pub proof fn law_subscriptions_are_per_connection(
    v: Map<u64, SubscriberView>,
    connection: u64,
    peer: u64,
    uri: Seq<char>,
    other: u64,
)
    requires
        other != connection,
    ensures
        subscribed(with_subscription(v, connection, peer, uri).0, other) == subscribed(v, other),
        subscribed(without_subscription(v, connection, uri), other) == subscribed(v, other),
        subscribed(v.remove(connection), other) == subscribed(v, other),
{
}

/// Whether every connection holds no more than it may, and none is kept that
/// holds nothing.
pub open spec fn within_limits(v: Map<u64, SubscriberView>) -> bool {
    forall|c: u64| #[trigger]
        v.dom().contains(c) ==> v[c].uris.finite() && 0 < v[c].uris.len() <= MAX_SUBSCRIPTIONS
}

/// Subscribing and unsubscribing keep every connection within its limit, and
/// keep no connection that holds nothing.
pub proof fn law_subscriptions_stay_within_limits(
    v: Map<u64, SubscriberView>,
    connection: u64,
    peer: u64,
    uri: Seq<char>,
)
    requires
        within_limits(v),
    ensures
        within_limits(with_subscription(v, connection, peer, uri).0),
        within_limits(without_subscription(v, connection, uri)),
        within_limits(v.remove(connection)),
{
    let uris = subscribed(v, connection);
    let added = with_subscription(v, connection, peer, uri).0;
    assert forall|c: u64| #[trigger] added.dom().contains(c) implies added[c].uris.finite() && 0
        < added[c].uris.len() <= MAX_SUBSCRIPTIONS by {
        if c != connection {
            assert(v.dom().contains(c));
        } else if v.dom().contains(c) {
            assert(uris.finite());
        }
    }
    let less = without_subscription(v, connection, uri);
    assert forall|c: u64| #[trigger] less.dom().contains(c) implies less[c].uris.finite() && 0
        < less[c].uris.len() <= MAX_SUBSCRIPTIONS by {
        assert(v.dom().contains(c));
        if c == connection {
            let left = v[c].uris.remove(uri);
            if left.len() == 0 {
                assert(left =~= Set::<Seq<char>>::empty());
            }
        }
    }
}

/// What was subscribed to can be unsubscribed from, and then is gone.
pub proof fn law_unsubscribing_undoes_subscribing(
    v: Map<u64, SubscriberView>,
    connection: u64,
    peer: u64,
    uri: Seq<char>,
)
    requires
        with_subscription(v, connection, peer, uri).1 is Ok,
    ensures
        subscribed(with_subscription(v, connection, peer, uri).0, connection).contains(uri),
        subscribed(
            without_subscription(with_subscription(v, connection, peer, uri).0, connection, uri),
            connection,
        ) == subscribed(v, connection).remove(uri),
{
    let added = with_subscription(v, connection, peer, uri).0;
    let uris = subscribed(v, connection);
    assert(uris.insert(uri).remove(uri) =~= uris.remove(uri));
}

} // verus!
