//! The line every endpoint connection opens with.
//!
//! A build that cannot speak another build's protocol still reads this line
//! and answers it, which is what lets a newer frontend ask an idle older
//! backend to exit. Both sides read one byte at a time up to the newline, so
//! neither ever buffers bytes of the protocol that follows.

use crate::config::{ConfigSource, ServerConfig};
use crate::text::{characters, code};
use std::cmp::Ordering;
use vstd::prelude::*;
use vstd::string::*;

verus! {

/// The endpoint protocol this build speaks.
pub const PROTOCOL: u32 = 1;

/// This build's version, as the handshake reports it.
pub const VERSION: &'static str = "0.3.9";

/// The longest handshake line either side reads.
pub const MAX_LINE: usize = 65536;

/// What a connection carries after its handshake.
#[derive(Clone, Copy, Debug, PartialEq, Eq, Structural)]
pub enum ConnectionKind {
    /// One host session's traffic, relayed by its frontend.
    Mcp,
    /// Hook requests.
    Hook,
    /// A request that the backend exit.
    Shutdown,
}

/// The configuration a process loaded, reduced to what another process
/// compares against its own.
#[derive(Clone, Debug, PartialEq, Eq)]
pub struct ConfigStamp {
    /// A hash of all that is configured.
    pub fingerprint: String,
    /// Where the configuration came from.
    pub source: ConfigSource,
    /// Whether a project's file was ignored for want of trust.
    pub project_ignored: bool,
}

/// What a [`ConfigStamp`] stands for.
pub struct StampView {
    /// A hash of all that is configured.
    pub fingerprint: Seq<char>,
    /// Where the configuration came from.
    pub source: ConfigSource,
    /// Whether a project's file was ignored for want of trust.
    pub project_ignored: bool,
}

impl DeepView for ConfigStamp {
    type V = StampView;

    open spec fn deep_view(&self) -> StampView {
        StampView {
            fingerprint: self.fingerprint@,
            source: self.source,
            project_ignored: self.project_ignored,
        }
    }
}

/// Whether one side loaded the project's file while the other ignored it.
pub open spec fn in_conflict(a: StampView, b: StampView) -> bool {
    ||| a.source == ConfigSource::Project && b.project_ignored
    ||| b.source == ConfigSource::Project && a.project_ignored
}

impl ConfigStamp {
    /// The stamp of `config`.
    pub fn of(config: &ServerConfig) -> (r: Self)
        ensures
            r.deep_view() == (StampView {
                fingerprint: config.fingerprint@,
                source: config.source,
                project_ignored: config.project_config_ignored,
            }),
    {
        ConfigStamp {
            fingerprint: config.fingerprint.clone(),
            source: config.source,
            project_ignored: config.project_config_ignored,
        }
    }

    /// Whether one side loaded the project's file while the other ignored it
    /// as untrusted. Such a file can name the command to spawn, so the two may
    /// not share a backend.
    pub fn conflicts_with(&self, other: &Self) -> (r: bool)
        ensures
            r == in_conflict(self.deep_view(), other.deep_view()),
    {
        (self.source == ConfigSource::Project && other.project_ignored) || (other.source
            == ConfigSource::Project && self.project_ignored)
    }

    /// A second stamp that says the same.
    pub fn dup(&self) -> (r: Self)
        ensures
            r.deep_view() == self.deep_view(),
    {
        ConfigStamp {
            fingerprint: self.fingerprint.clone(),
            source: self.source,
            project_ignored: self.project_ignored,
        }
    }
}

/// The first line a client writes.
#[derive(Clone, Debug, PartialEq, Eq)]
pub struct Handshake {
    /// The client's protocol.
    pub mcpls: u32,
    /// The client's version.
    pub version: String,
    /// What follows.
    pub kind: ConnectionKind,
    /// The canonical checkout root the client resolved.
    pub root: Option<String>,
    /// The session the host named.
    pub session: Option<String>,
    /// The client's configuration.
    pub config: Option<ConfigStamp>,
    /// Whether the backend is to stay up without a session.
    pub keep: bool,
    /// Whether the backend need no longer stay up without a session.
    pub release: bool,
    /// Whether a shutdown is meant whatever sessions are attached.
    pub force: bool,
}

/// What a [`Handshake`] stands for.
pub struct HandshakeView {
    /// The client's protocol.
    pub mcpls: u32,
    /// The client's version.
    pub version: Seq<char>,
    /// What follows.
    pub kind: ConnectionKind,
    /// The canonical checkout root the client resolved.
    pub root: Option<Seq<char>>,
    /// The session the host named.
    pub session: Option<Seq<char>>,
    /// The client's configuration.
    pub config: Option<StampView>,
    /// Whether the backend is to stay up without a session.
    pub keep: bool,
    /// Whether the backend need no longer stay up without a session.
    pub release: bool,
    /// Whether a shutdown is meant whatever sessions are attached.
    pub force: bool,
}

impl DeepView for Handshake {
    type V = HandshakeView;

    open spec fn deep_view(&self) -> HandshakeView {
        HandshakeView {
            mcpls: self.mcpls,
            version: self.version@,
            kind: self.kind,
            root: self.root.deep_view(),
            session: self.session.deep_view(),
            config: self.config.deep_view(),
            keep: self.keep,
            release: self.release,
            force: self.force,
        }
    }
}

/// A handshake of this build that asks for nothing particular.
pub open spec fn bare_handshake(kind: ConnectionKind) -> HandshakeView {
    HandshakeView {
        mcpls: PROTOCOL,
        version: VERSION@,
        kind,
        root: None,
        session: None,
        config: None,
        keep: false,
        release: false,
        force: false,
    }
}

/// Whether a protocol and a version are this build's.
pub open spec fn this_build(protocol: u32, version: Seq<char>) -> bool {
    protocol == PROTOCOL && version == VERSION@
}

impl Handshake {
    /// A frontend attaching one host session.
    pub fn mcp(root: String, session: Option<String>, config: ConfigStamp) -> (r: Self)
        ensures
            r.deep_view() == (HandshakeView {
                root: Some(root@),
                session: session.deep_view(),
                config: Some(config.deep_view()),
                ..bare_handshake(ConnectionKind::Mcp)
            }),
    {
        Handshake {
            root: Some(root),
            session,
            config: Some(config),
            ..Self::bare(ConnectionKind::Mcp)
        }
    }

    /// A hook invocation or an inspection.
    pub fn hook() -> (r: Self)
        ensures
            r.deep_view() == bare_handshake(ConnectionKind::Hook),
    {
        Self::bare(ConnectionKind::Hook)
    }

    /// A request that an idle backend exit.
    pub fn shutdown() -> (r: Self)
        ensures
            r.deep_view() == bare_handshake(ConnectionKind::Shutdown),
    {
        Self::bare(ConnectionKind::Shutdown)
    }

    /// A request that a backend exit whatever sessions are attached.
    pub fn forced_shutdown() -> (r: Self)
        ensures
            r.deep_view() == (HandshakeView {
                force: true,
                ..bare_handshake(ConnectionKind::Shutdown)
            }),
    {
        Handshake { force: true, ..Self::bare(ConnectionKind::Shutdown) }
    }

    /// A request that a backend stay up without a session.
    pub fn keep() -> (r: Self)
        ensures
            r.deep_view() == (HandshakeView {
                keep: true,
                ..bare_handshake(ConnectionKind::Hook)
            }),
    {
        Handshake { keep: true, ..Self::bare(ConnectionKind::Hook) }
    }

    /// A request that a backend no longer stay up without a session.
    pub fn release() -> (r: Self)
        ensures
            r.deep_view() == (HandshakeView {
                release: true,
                ..bare_handshake(ConnectionKind::Hook)
            }),
    {
        Handshake { release: true, ..Self::bare(ConnectionKind::Hook) }
    }

    /// A handshake that asks for nothing particular.
    pub fn bare(kind: ConnectionKind) -> (r: Self)
        ensures
            r.deep_view() == bare_handshake(kind),
    {
        Handshake {
            mcpls: PROTOCOL,
            version: VERSION.to_owned(),
            kind,
            root: None,
            session: None,
            config: None,
            keep: false,
            release: false,
            force: false,
        }
    }

    /// Whether this handshake came from a build identical to this one.
    pub fn same_build(&self) -> (r: bool)
        ensures
            r == this_build(self.mcpls, self.version@),
    {
        self.mcpls == PROTOCOL && self.version == VERSION.to_owned()
    }
}

/// Why a server refused a connection.
#[derive(Clone, Debug, PartialEq, Eq)]
pub enum Refusal {
    /// The two builds differ.
    Build,
    /// One side trusted the project's file and the other did not.
    Trust {
        /// The server's configuration.
        backend: ConfigStamp,
    },
    /// A shutdown was asked for while sessions are attached.
    Attached,
    /// The endpoint is held by a process serving one session on its own.
    InProcess,
    /// The server's configuration turns hooks off.
    HooksDisabled,
    /// A reason this build does not know.
    Other,
}

/// What a [`Refusal`] stands for.
pub enum RefusalView {
    /// The two builds differ.
    Build,
    /// One side trusted the project's file and the other did not.
    Trust {
        /// The server's configuration.
        backend: StampView,
    },
    /// A shutdown was asked for while sessions are attached.
    Attached,
    /// The endpoint is held by a process serving one session on its own.
    InProcess,
    /// The server's configuration turns hooks off.
    HooksDisabled,
    /// A reason this build does not know.
    Other,
}

impl DeepView for Refusal {
    type V = RefusalView;

    open spec fn deep_view(&self) -> RefusalView {
        match self {
            Refusal::Build => RefusalView::Build,
            Refusal::Trust { backend } => RefusalView::Trust { backend: backend.deep_view() },
            Refusal::Attached => RefusalView::Attached,
            Refusal::InProcess => RefusalView::InProcess,
            Refusal::HooksDisabled => RefusalView::HooksDisabled,
            Refusal::Other => RefusalView::Other,
        }
    }
}

/// The line a server answers a handshake with.
#[derive(Clone, Debug, PartialEq, Eq)]
pub struct HandshakeReply {
    /// The server's protocol.
    pub mcpls: u32,
    /// The server's version.
    pub version: String,
    /// The server's process id.
    pub pid: u32,
    /// How many sessions are attached to the server.
    pub sessions: usize,
    /// Why the connection is refused, absent when it is accepted.
    pub refusal: Option<Refusal>,
    /// Whether the server stays up without a session.
    pub kept: bool,
}

/// What a [`HandshakeReply`] stands for.
pub struct ReplyView {
    /// The server's protocol.
    pub mcpls: u32,
    /// The server's version.
    pub version: Seq<char>,
    /// The server's process id.
    pub pid: u32,
    /// How many sessions are attached to the server.
    pub sessions: usize,
    /// Why the connection is refused, absent when it is accepted.
    pub refusal: Option<RefusalView>,
    /// Whether the server stays up without a session.
    pub kept: bool,
}

impl DeepView for HandshakeReply {
    type V = ReplyView;

    open spec fn deep_view(&self) -> ReplyView {
        ReplyView {
            mcpls: self.mcpls,
            version: self.version@,
            pid: self.pid,
            sessions: self.sessions,
            refusal: self.refusal.deep_view(),
            kept: self.kept,
        }
    }
}

impl HandshakeReply {
    /// The answer of the process `pid`, which is not kept.
    pub fn new(pid: u32, sessions: usize, refusal: Option<Refusal>) -> (r: Self)
        ensures
            r.deep_view() == (ReplyView {
                mcpls: PROTOCOL,
                version: VERSION@,
                pid,
                sessions,
                refusal: refusal.deep_view(),
                kept: false,
            }),
    {
        HandshakeReply {
            mcpls: PROTOCOL,
            version: VERSION.to_owned(),
            pid,
            sessions,
            refusal,
            kept: false,
        }
    }

    /// Whether the answering server is a build identical to this one.
    pub fn same_build(&self) -> (r: bool)
        ensures
            r == this_build(self.mcpls, self.version@),
    {
        self.mcpls == PROTOCOL && self.version == VERSION.to_owned()
    }
}

/// Whether a character separates the parts of a version.
pub open spec fn separator(c: char) -> bool {
    c == '.' || c == '-' || c == '+'
}

/// The parts of a version.
pub open spec fn version_parts(version: Seq<char>) -> Seq<Seq<char>>
    decreases version.len(),
{
    if version.len() == 0 {
        seq![Seq::<char>::empty()]
    } else {
        let before = version_parts(version.drop_last());
        if separator(version.last()) {
            before.push(Seq::empty())
        } else {
            before.drop_last().push(before.last().push(version.last()))
        }
    }
}

/// Whether a text is a number in decimal.
pub open spec fn all_digits(s: Seq<char>) -> bool {
    s.len() > 0 && forall|i: int| 0 <= i < s.len() ==> 48 <= #[trigger] s[i] as int <= 57
}

/// The number that digits stand for.
pub open spec fn digits_value(s: Seq<char>) -> nat
    decreases s.len(),
{
    if s.len() == 0 {
        0
    } else {
        digits_value(s.drop_last()) * 10 + (s.last() as int - 48) as nat
    }
}

/// The number of one part; what is no number that fits counts as zero.
pub open spec fn part_number(s: Seq<char>) -> u64 {
    if all_digits(s) && digits_value(s) <= u64::MAX {
        digits_value(s) as u64
    } else {
        0
    }
}

/// The numbers of a version.
pub open spec fn version_numbers(version: Seq<char>) -> Seq<u64> {
    version_parts(version).map_values(|s: Seq<char>| part_number(s))
}

/// Whether one list of numbers comes before another: at the first place where
/// they differ, or because it ends there.
pub open spec fn list_before(a: Seq<u64>, b: Seq<u64>) -> bool
    decreases a.len(),
{
    if b.len() == 0 {
        false
    } else if a.len() == 0 {
        true
    } else if a[0] != b[0] {
        a[0] < b[0]
    } else {
        list_before(a.drop_first(), b.drop_first())
    }
}

/// Whether one build is older than another: by protocol, then by version.
pub open spec fn build_before(a: (u32, Seq<char>), b: (u32, Seq<char>)) -> bool {
    ||| a.0 < b.0
    ||| a.0 == b.0 && list_before(version_numbers(a.1), version_numbers(b.1))
}

proof fn lemma_digits_grow(s: Seq<char>, n: int)
    requires
        all_digits(s),
        0 <= n <= s.len(),
    ensures
        digits_value(s.take(n)) <= digits_value(s),
    decreases s.len() - n,
{
    if n < s.len() {
        lemma_digits_grow(s, n + 1);
        let next = s.take(n + 1);
        assert(next.drop_last() =~= s.take(n));
        assert(next.last() == s[n]);
    } else {
        assert(s.take(n) =~= s);
    }
}

fn number_of(part: &Vec<char>) -> (r: u64)
    ensures
        r == part_number(part@),
{
    let mut i: usize = 0;
    if part.len() == 0 {
        return 0;
    }
    while i < part.len()
        invariant
            i <= part.len(),
            forall|j: int| 0 <= j < i ==> 48 <= #[trigger] part@[j] as int <= 57,
        decreases part.len() - i,
    {
        let c: u32 = code(part[i]);
        if c < 48 || c > 57 {
            assert(!(48 <= part@[i as int] as int <= 57));
            return 0;
        }
        i = i + 1;
    }
    let mut value: u128 = 0;
    i = 0;
    while i < part.len()
        invariant
            i <= part.len(),
            all_digits(part@),
            value == digits_value(part@.take(i as int)),
            value <= u64::MAX,
        decreases part.len() - i,
    {
        let c: u32 = code(part[i]);
        proof {
            let next = part@.take(i + 1);
            assert(next.drop_last() =~= part@.take(i as int));
            assert(next.last() == part@[i as int]);
            lemma_digits_grow(part@, i + 1);
        }
        value = value * 10 + (c - 48) as u128;
        if value > u64::MAX as u128 {
            return 0;
        }
        i = i + 1;
    }
    assert(part@.take(i as int) =~= part@);
    value as u64
}

/// The numbers of a version.
pub fn numeric(version: &str) -> (r: Vec<u64>)
    ensures
        r@ == version_numbers(version@),
{
    let chars = characters(version);
    let ghost f = |s: Seq<char>| part_number(s);
    let ghost mut done: Seq<Seq<char>> = Seq::empty();
    let mut r: Vec<u64> = Vec::new();
    let mut part: Vec<char> = Vec::new();
    let mut i: usize = 0;
    proof {
        assert(chars@.take(0) =~= Seq::<char>::empty());
        assert(done.push(part@) =~= version_parts(chars@.take(0)));
        assert(done.map_values(f) =~= r@);
    }
    while i < chars.len()
        invariant
            i <= chars.len(),
            chars@ == version@,
            f == (|s: Seq<char>| part_number(s)),
            done.push(part@) == version_parts(chars@.take(i as int)),
            r@ == done.map_values(f),
        decreases chars.len() - i,
    {
        let c = chars[i];
        proof {
            let next = chars@.take(i + 1);
            assert(next.drop_last() =~= chars@.take(i as int));
            assert(next.last() == c);
        }
        if c == '.' || c == '-' || c == '+' {
            r.push(number_of(&part));
            proof {
                let full = part@;
                let before = done;
                done = done.push(full);
                assert(done.map_values(f) =~= before.map_values(f).push(part_number(full)));
            }
            part = Vec::new();
            assert(part@ =~= Seq::<char>::empty());
        } else {
            let ghost full = part@;
            part.push(c);
            assert(done.push(full).drop_last() =~= done);
        }
        i = i + 1;
    }
    proof {
        assert(chars@.take(i as int) =~= chars@);
        assert(done.push(part@).map_values(f) =~= done.map_values(f).push(part_number(part@)));
    }
    r.push(number_of(&part));
    r
}

/// How two builds order, oldest first: by protocol, then by version, compared
/// numerically part by part.
pub fn compare_builds(ours: (u32, &str), theirs: (u32, &str)) -> (r: Ordering)
    ensures
        (r is Less) == build_before((ours.0, ours.1@), (theirs.0, theirs.1@)),
        (r is Greater) == build_before((theirs.0, theirs.1@), (ours.0, ours.1@)),
        (r is Equal) == (ours.0 == theirs.0 && version_numbers(ours.1@) == version_numbers(
            theirs.1@,
        )),
{
    if ours.0 < theirs.0 {
        return Ordering::Less;
    }
    if ours.0 > theirs.0 {
        return Ordering::Greater;
    }
    let a = numeric(ours.1);
    let b = numeric(theirs.1);
    let mut i: usize = 0;
    proof {
        lemma_start(a@, b@);
    }
    while i < a.len() && i < b.len()
        invariant
            i <= a.len(),
            i <= b.len(),
            same_from(a@, b@, i),
            ours.0 == theirs.0,
            a@ == version_numbers(ours.1@),
            b@ == version_numbers(theirs.1@),
        decreases a.len() - i,
    {
        let next: usize = i + 1;
        proof {
            lemma_step(a@, b@, i, next);
        }
        if a[i] < b[i] {
            return Ordering::Less;
        }
        if a[i] > b[i] {
            return Ordering::Greater;
        }
        i = next;
    }
    proof {
        lemma_finish(a@, b@, i);
    }
    if i < b.len() {
        Ordering::Less
    } else if i < a.len() {
        Ordering::Greater
    } else {
        Ordering::Equal
    }
}

/// Whether two lists agree before `i`, so that what follows decides.
spec fn same_from(a: Seq<u64>, b: Seq<u64>, i: usize) -> bool {
    &&& i <= a.len()
    &&& i <= b.len()
    &&& list_before(a, b) == list_before(a.skip(i as int), b.skip(i as int))
    &&& list_before(b, a) == list_before(b.skip(i as int), a.skip(i as int))
    &&& (a == b) == (a.skip(i as int) == b.skip(i as int))
}

proof fn lemma_start(a: Seq<u64>, b: Seq<u64>)
    ensures
        same_from(a, b, 0),
{
    assert(a.skip(0) =~= a);
    assert(b.skip(0) =~= b);
}

proof fn lemma_step(a: Seq<u64>, b: Seq<u64>, i: usize, next: usize)
    requires
        next == i + 1,
        same_from(a, b, i),
        i < a.len(),
        i < b.len(),
    ensures
        a[i as int] < b[i as int] ==> list_before(a, b) && !list_before(b, a) && a != b,
        a[i as int] > b[i as int] ==> list_before(b, a) && !list_before(a, b) && a != b,
        a[i as int] == b[i as int] ==> same_from(a, b, next),
{
    let x = a.skip(i as int);
    let y = b.skip(i as int);
    assert(x[0] == a[i as int] && y[0] == b[i as int]);
    assert(x.drop_first() =~= a.skip(i + 1));
    assert(y.drop_first() =~= b.skip(i + 1));
    assert(x =~= seq![x[0]] + x.drop_first());
    assert(y =~= seq![y[0]] + y.drop_first());
}

proof fn lemma_finish(a: Seq<u64>, b: Seq<u64>, i: usize)
    requires
        same_from(a, b, i),
        i == a.len() || i == b.len(),
    ensures
        i < b.len() ==> list_before(a, b) && !list_before(b, a) && a != b,
        i >= b.len() && i < a.len() ==> list_before(b, a) && !list_before(a, b) && a != b,
        i >= b.len() && i >= a.len() ==> !list_before(a, b) && !list_before(b, a) && a == b,
{
    let x = a.skip(i as int);
    let y = b.skip(i as int);
    if i >= b.len() && i >= a.len() {
        assert(x =~= y);
    }
}

proof fn lemma_list_before_transitive(a: Seq<u64>, b: Seq<u64>, c: Seq<u64>)
    requires
        list_before(a, b),
        list_before(b, c),
    ensures
        list_before(a, c),
    decreases a.len(),
{
    if a.len() > 0 && b.len() > 0 && c.len() > 0 && a[0] == b[0] && b[0] == c[0] {
        lemma_list_before_transitive(a.drop_first(), b.drop_first(), c.drop_first());
    }
}

proof fn lemma_list_before_total(a: Seq<u64>, b: Seq<u64>)
    ensures
        list_before(a, b) || list_before(b, a) || a == b,
        !(list_before(a, b) && list_before(b, a)),
        a == b ==> !list_before(a, b),
    decreases a.len(),
{
    if a.len() > 0 && b.len() > 0 && a[0] == b[0] {
        lemma_list_before_total(a.drop_first(), b.drop_first());
        assert(a =~= seq![a[0]] + a.drop_first());
        assert(b =~= seq![b[0]] + b.drop_first());
    } else if a.len() == 0 && b.len() == 0 {
        assert(a =~= b);
    }
}

/// Of two builds exactly one is older, or their protocols and version numbers
/// are equal.
pub proof fn law_two_builds_are_ordered(a: (u32, Seq<char>), b: (u32, Seq<char>))
    ensures
        build_before(a, b) || build_before(b, a) || (a.0 == b.0 && version_numbers(a.1)
            == version_numbers(b.1)),
        !(build_before(a, b) && build_before(b, a)),
        a.0 == b.0 && version_numbers(a.1) == version_numbers(b.1) ==> !build_before(a, b),
{
    lemma_list_before_total(version_numbers(a.1), version_numbers(b.1));
}

/// A build older than an older build is older.
pub proof fn law_older_is_transitive(
    a: (u32, Seq<char>),
    b: (u32, Seq<char>),
    c: (u32, Seq<char>),
)
    requires
        build_before(a, b),
        build_before(b, c),
    ensures
        build_before(a, c),
{
    if a.0 == b.0 && b.0 == c.0 {
        lemma_list_before_transitive(
            version_numbers(a.1),
            version_numbers(b.1),
            version_numbers(c.1),
        );
    }
}

/// Conflicts are mutual, and no stamp that loaded the project's file or did
/// not see one conflicts with itself.
pub proof fn law_conflicts_are_mutual(a: StampView, b: StampView)
    ensures
        in_conflict(a, b) == in_conflict(b, a),
        in_conflict(a, a) ==> a.source == ConfigSource::Project && a.project_ignored,
{
}

/// What reading one byte of a line came to.
#[derive(Clone, Copy, Debug, PartialEq, Eq, Structural)]
pub enum LineStep {
    /// The line goes on.
    More,
    /// The line is complete.
    Complete,
    /// The line is longer than any handshake.
    TooLong,
}

/// A handshake line as it is read.
pub struct LineReader {
    line: Vec<u8>,
}

impl View for LineReader {
    type V = Seq<u8>;

    closed spec fn view(&self) -> Seq<u8> {
        self.line@
    }
}

/// What a byte does to a line.
pub open spec fn line_step(line: Seq<u8>, byte: u8) -> (Seq<u8>, LineStep) {
    if byte == 10 {
        (line, LineStep::Complete)
    } else if line.len() == MAX_LINE {
        (line, LineStep::TooLong)
    } else {
        (line.push(byte), LineStep::More)
    }
}

impl LineReader {
    /// A line of which nothing was read.
    pub fn new() -> (r: Self)
        ensures
            r@ == Seq::<u8>::empty(),
    {
        LineReader { line: Vec::new() }
    }

    /// Read one byte.
    pub fn feed(&mut self, byte: u8) -> (r: LineStep)
        ensures
            (final(self)@, r) == line_step(old(self)@, byte),
    {
        if byte == 10 {
            return LineStep::Complete;
        }
        if self.line.len() == MAX_LINE {
            return LineStep::TooLong;
        }
        self.line.push(byte);
        LineStep::More
    }

    /// The bytes of the line.
    pub fn bytes(&self) -> (r: &Vec<u8>)
        ensures
            r@ == self@,
    {
        &self.line
    }
}

/// A value's bytes as one line.
pub fn framed(bytes: Vec<u8>) -> (r: Vec<u8>)
    ensures
        r@ == bytes@.push(10),
{
    let mut line = bytes;
    line.push(10);
    line
}

/// What reading byte after byte comes to: the line, how it ended, and how many
/// bytes were taken.
pub open spec fn read_bytes(line: Seq<u8>, input: Seq<u8>) -> (Seq<u8>, LineStep, nat)
    decreases input.len(),
{
    if input.len() == 0 {
        (line, LineStep::More, 0)
    } else {
        let (next, step) = line_step(line, input[0]);
        if step == LineStep::More {
            let (end, last, taken) = read_bytes(next, input.drop_first());
            (end, last, taken + 1)
        } else {
            (next, step, 1)
        }
    }
}

/// Reading takes exactly the line that was written, whatever follows it.
pub proof fn law_reading_takes_exactly_one_line(bytes: Seq<u8>, rest: Seq<u8>)
    requires
        bytes.len() <= MAX_LINE,
        !bytes.contains(10),
    ensures
        read_bytes(Seq::empty(), bytes.push(10) + rest) == (bytes, LineStep::Complete, bytes.len()
            + 1),
{
    lemma_read_bytes(Seq::empty(), bytes, rest);
    assert(Seq::<u8>::empty() + bytes =~= bytes);
}

proof fn lemma_read_bytes(line: Seq<u8>, bytes: Seq<u8>, rest: Seq<u8>)
    requires
        line.len() + bytes.len() <= MAX_LINE,
        !bytes.contains(10),
    ensures
        read_bytes(line, bytes.push(10) + rest) == (line + bytes, LineStep::Complete, bytes.len()
            + 1),
    decreases bytes.len(),
{
    let input = bytes.push(10) + rest;
    if bytes.len() == 0 {
        assert(input[0] == 10);
        assert(line + bytes =~= line);
    } else {
        let tail = bytes.drop_first();
        assert(bytes.contains(bytes[0]));
        assert(input[0] == bytes[0]);
        assert(input.drop_first() =~= tail.push(10) + rest);
        assert forall|b: u8| tail.contains(b) implies bytes.contains(b) by {
            let j = choose|j: int| 0 <= j < tail.len() && tail[j] == b;
            assert(bytes[j + 1] == b);
        }
        lemma_read_bytes(line.push(bytes[0]), tail, rest);
        assert(line.push(bytes[0]) + tail =~= line + bytes);
    }
}

/// A line longer than any handshake is given up at the first byte too many.
pub proof fn law_a_long_line_is_given_up(line: Seq<u8>, byte: u8)
    requires
        line.len() == MAX_LINE,
        byte != 10,
    ensures
        line_step(line, byte) == (line, LineStep::TooLong),
{
}

} // verus!
