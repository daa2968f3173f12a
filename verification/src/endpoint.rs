//! The backend's side of the project endpoint: what each connection is
//! answered, who is attached, and when the process may end.

use crate::clock;
use crate::clock::{duration_since, Duration, Instant};
use crate::config::ConfigSource;
use crate::handshake;
use crate::handshake::{
    ConfigStamp, ConnectionKind, Handshake, HandshakeReply, HandshakeView, Refusal, RefusalView,
    ReplyView, StampView, PROTOCOL, VERSION,
};
use crate::identity::{ConnectionId, SessionId};
use vstd::prelude::*;
use vstd::string::*;

verus! {

/// The name of a source in messages.
pub open spec fn source_text(source: ConfigSource) -> Seq<char> {
    match source {
        ConfigSource::Project => "Project"@,
        ConfigSource::Global => "Global"@,
        ConfigSource::Explicit => "Explicit"@,
    }
}

fn source_words(source: ConfigSource) -> (r: &'static str)
    ensures
        r@ == source_text(source),
{
    match source {
        ConfigSource::Project => "Project",
        ConfigSource::Global => "Global",
        ConfigSource::Explicit => "Explicit",
    }
}

/// What a session is told whose configuration is not the backend's.
pub open spec fn note_text(backend: StampView, frontend: StampView) -> Seq<char> {
    "NOTE: this session's mcpls configuration (fingerprint "@ + frontend.fingerprint + ", from "@
        + source_text(frontend.source)
        + ") differs from the one the shared backend for this project started with (fingerprint "@
        + backend.fingerprint + ", from "@ + source_text(backend.source)
        + "). The backend's configuration is in effect. Restart every session in this checkout to apply one configuration."@
}

/// What a session is told whose configuration is not the backend's.
pub fn fingerprint_note(backend: &ConfigStamp, frontend: &ConfigStamp) -> (r: String)
    ensures
        r@ == note_text(backend.deep_view(), frontend.deep_view()),
{
    let mut r = "NOTE: this session's mcpls configuration (fingerprint ".to_owned();
    r.append(frontend.fingerprint.as_str());
    r.append(", from ");
    r.append(source_words(frontend.source));
    r.append(
        ") differs from the one the shared backend for this project started with (fingerprint ",
    );
    r.append(backend.fingerprint.as_str());
    r.append(", from ");
    r.append(source_words(backend.source));
    r.append(
        "). The backend's configuration is in effect. Restart every session in this checkout to apply one configuration.",
    );
    r
}

/// What a backend does with a connection once it has answered it.
#[derive(Clone, Debug, PartialEq, Eq)]
pub enum Then {
    /// Close it: it was refused.
    Close,
    /// Serve hook requests on it.
    ServeHooks,
    /// Serve a session on it, telling it these notes.
    ServeMcp {
        /// What the session is told at the start.
        notes: Vec<String>,
        /// The session the host named.
        session: Option<SessionId>,
    },
    /// Stop.
    ShutDown,
}

/// What a [`Then`] stands for.
pub enum ThenView {
    /// Close it: it was refused.
    Close,
    /// Serve hook requests on it.
    ServeHooks,
    /// Serve a session on it, telling it these notes.
    ServeMcp {
        /// What the session is told at the start.
        notes: Seq<Seq<char>>,
        /// The session the host named.
        session: Option<Seq<char>>,
    },
    /// Stop.
    ShutDown,
}

impl DeepView for Then {
    type V = ThenView;

    open spec fn deep_view(&self) -> ThenView {
        match self {
            Then::Close => ThenView::Close,
            Then::ServeHooks => ThenView::ServeHooks,
            Then::ServeMcp { notes, session } => ThenView::ServeMcp {
                notes: notes.deep_view(),
                session: session.deep_view(),
            },
            Then::ShutDown => ThenView::ShutDown,
        }
    }
}

/// What a backend goes by when it answers.
pub struct Endpoint {
    stamp: ConfigStamp,
    hooks_enabled: bool,
    kept: bool,
    closing: bool,
}

/// What an [`Endpoint`] stands for.
pub struct EndpointView {
    /// The backend's configuration.
    pub stamp: StampView,
    /// Whether hooks are served.
    pub hooks_enabled: bool,
    /// Whether the backend stays up without a session.
    pub kept: bool,
    /// Whether the backend has stopped accepting.
    pub closing: bool,
}

impl View for Endpoint {
    type V = EndpointView;

    closed spec fn view(&self) -> EndpointView {
        EndpointView {
            stamp: self.stamp.deep_view(),
            hooks_enabled: self.hooks_enabled,
            kept: self.kept,
            closing: self.closing,
        }
    }
}

/// Why a request is refused while `sessions` are attached, if it is.
pub open spec fn refusal_of(
    e: EndpointView,
    request: HandshakeView,
    sessions: nat,
) -> Option<RefusalView> {
    if request.kind == ConnectionKind::Shutdown {
        if sessions > 0 && !request.force {
            Some(RefusalView::Attached)
        } else {
            None
        }
    } else if !handshake::this_build(request.mcpls, request.version) {
        Some(RefusalView::Build)
    } else if request.kind == ConnectionKind::Hook {
        if e.hooks_enabled {
            None
        } else {
            Some(RefusalView::HooksDisabled)
        }
    } else {
        match request.config {
            Some(theirs) => if handshake::in_conflict(e.stamp, theirs) {
                Some(RefusalView::Trust { backend: e.stamp })
            } else {
                None
            },
            None => None,
        }
    }
}

/// Whether the backend stays up without a session once it has answered.
pub open spec fn kept_after(e: EndpointView, request: HandshakeView) -> bool {
    if request.kind == ConnectionKind::Shutdown {
        false
    } else if request.keep {
        true
    } else if request.release {
        false
    } else {
        e.kept
    }
}

/// What a session is told at the start.
pub open spec fn notes_of(e: EndpointView, request: HandshakeView) -> Seq<Seq<char>> {
    match request.config {
        Some(theirs) => if theirs.fingerprint != e.stamp.fingerprint {
            seq![note_text(e.stamp, theirs)]
        } else {
            Seq::empty()
        },
        None => Seq::empty(),
    }
}

/// The session a host named, if it named one.
pub open spec fn named_session(session: Option<Seq<char>>) -> Option<Seq<char>> {
    match session {
        Some(name) if name.len() > 0 => Some(name),
        _ => None,
    }
}

/// What follows the answer.
pub open spec fn then_of(e: EndpointView, request: HandshakeView, sessions: nat) -> ThenView {
    if refusal_of(e, request, sessions) is Some {
        ThenView::Close
    } else {
        match request.kind {
            ConnectionKind::Hook => ThenView::ServeHooks,
            ConnectionKind::Mcp => ThenView::ServeMcp {
                notes: notes_of(e, request),
                session: named_session(request.session),
            },
            ConnectionKind::Shutdown => ThenView::ShutDown,
        }
    }
}

/// The answer of the process `pid`.
pub open spec fn reply_of(
    e: EndpointView,
    request: HandshakeView,
    sessions: usize,
    pid: u32,
) -> ReplyView {
    ReplyView {
        mcpls: PROTOCOL,
        version: VERSION@,
        pid,
        sessions,
        refusal: refusal_of(e, request, sessions as nat),
        kept: kept_after(e, request),
    }
}

impl Endpoint {
    /// A backend that is accepting and not kept.
    pub fn new(stamp: ConfigStamp, hooks_enabled: bool) -> (r: Self)
        ensures
            r@ == (EndpointView {
                stamp: stamp.deep_view(),
                hooks_enabled,
                kept: false,
                closing: false,
            }),
    {
        Endpoint { stamp, hooks_enabled, kept: false, closing: false }
    }

    /// Whether the backend stays up without a session.
    pub fn is_kept(&self) -> (r: bool)
        ensures
            r == self@.kept,
    {
        self.kept
    }

    /// Stop accepting.
    pub fn close(&mut self)
        ensures
            final(self)@ == (EndpointView { closing: true, ..old(self)@ }),
    {
        self.closing = true;
    }

    /// Why `request` is refused while `sessions` are attached, if it is.
    pub fn refusal_for(&self, request: &Handshake, sessions: usize) -> (r: Option<Refusal>)
        ensures
            r.deep_view() == refusal_of(self@, request.deep_view(), sessions as nat),
    {
        if request.kind == ConnectionKind::Shutdown {
            return if sessions > 0 && !request.force {
                Some(Refusal::Attached)
            } else {
                None
            };
        }
        if !request.same_build() {
            return Some(Refusal::Build);
        }
        if request.kind == ConnectionKind::Hook {
            return if self.hooks_enabled {
                None
            } else {
                Some(Refusal::HooksDisabled)
            };
        }
        match &request.config {
            Some(theirs) => if self.stamp.conflicts_with(theirs) {
                Some(Refusal::Trust { backend: self.stamp.dup() })
            } else {
                None
            },
            None => None,
        }
    }

    fn notes_for(&self, request: &Handshake) -> (r: Vec<String>)
        ensures
            r.deep_view() == notes_of(self@, request.deep_view()),
    {
        let mut notes: Vec<String> = Vec::new();
        if let Some(theirs) = &request.config {
            if theirs.fingerprint != self.stamp.fingerprint {
                notes.push(fingerprint_note(&self.stamp, theirs));
            }
        }
        assert(notes.deep_view() =~= notes_of(self@, request.deep_view()));
        notes
    }

    /// Answer a connection's handshake as the process `pid` with `sessions`
    /// attached, and say what follows.
    ///
    /// Nothing once the backend has stopped accepting: it then hangs up without
    /// a reply, so that its client starts a fresh backend.
    pub fn answer(&mut self, request: &Handshake, sessions: usize, pid: u32) -> (r: Option<
        (HandshakeReply, Then),
    >)
        ensures
            old(self)@.closing ==> r is None && final(self)@ == old(self)@,
            !old(self)@.closing ==> {
                &&& r is Some
                &&& r->Some_0.0.deep_view() == reply_of(
                    old(self)@,
                    request.deep_view(),
                    sessions,
                    pid,
                )
                &&& r->Some_0.1.deep_view() == then_of(
                    old(self)@,
                    request.deep_view(),
                    sessions as nat,
                )
                &&& final(self)@ == (EndpointView {
                    kept: kept_after(old(self)@, request.deep_view()),
                    ..old(self)@
                })
            },
    {
        if self.closing {
            return None;
        }
        let refusal = self.refusal_for(request, sessions);
        let then = if refusal.is_some() {
            Then::Close
        } else {
            match request.kind {
                ConnectionKind::Hook => Then::ServeHooks,
                ConnectionKind::Mcp => Then::ServeMcp {
                    notes: self.notes_for(request),
                    session: SessionId::named(
                        match &request.session {
                            Some(s) => Some(s.clone()),
                            None => None,
                        },
                    ),
                },
                ConnectionKind::Shutdown => Then::ShutDown,
            }
        };
        if request.kind == ConnectionKind::Shutdown {
            self.kept = false;
        } else if request.keep {
            self.kept = true;
        } else if request.release {
            self.kept = false;
        }
        let reply = HandshakeReply {
            kept: self.kept,
            ..HandshakeReply::new(pid, sessions, refusal)
        };
        Some((reply, then))
    }
}

/// A backend is only ever shut down by a request that no attached session
/// stands against, or by force.
pub proof fn law_sessions_keep_a_backend_up(
    e: EndpointView,
    request: HandshakeView,
    sessions: nat,
)
    ensures
        then_of(e, request, sessions) is ShutDown <==> request.kind == ConnectionKind::Shutdown && (
        sessions == 0 || request.force),
{
}

/// A shutdown request ends the keeping even where it is refused, so that the
/// backend exits once its sessions leave.
pub proof fn law_a_refused_shutdown_still_ends_the_keeping(
    e: EndpointView,
    request: HandshakeView,
)
    requires
        request.kind == ConnectionKind::Shutdown,
    ensures
        !kept_after(e, request),
{
}

/// Only a build identical to this one is ever served.
pub proof fn law_another_build_is_never_served(
    e: EndpointView,
    request: HandshakeView,
    sessions: nat,
)
    requires
        !handshake::this_build(request.mcpls, request.version),
    ensures
        !(then_of(e, request, sessions) is ServeMcp),
        !(then_of(e, request, sessions) is ServeHooks),
{
}

/// No session is served that disagrees with the backend about trusting the
/// project's file.
pub proof fn law_trust_is_never_mixed(e: EndpointView, request: HandshakeView, sessions: nat)
    requires
        request.config is Some,
        handshake::in_conflict(e.stamp, request.config->Some_0),
    ensures
        !(then_of(e, request, sessions) is ServeMcp),
{
}

/// A session of this build that brings no configuration, or one that agrees
/// with the backend's about the project's file, is served however many sessions
/// are attached. It is told of another configuration once, where there is one,
/// and it is the session that the host named, if the host named one.
pub proof fn law_a_matching_session_is_served(
    e: EndpointView,
    request: HandshakeView,
    sessions: nat,
)
    requires
        request.kind == ConnectionKind::Mcp,
        request.mcpls == PROTOCOL,
        request.version == VERSION@,
        request.config matches Some(theirs) ==> {
            &&& !(e.stamp.source == ConfigSource::Project && theirs.project_ignored)
            &&& !(theirs.source == ConfigSource::Project && e.stamp.project_ignored)
        },
    ensures
        refusal_of(e, request, sessions) is None,
        then_of(e, request, sessions) matches ThenView::ServeMcp { notes, session } && {
            &&& notes.len() == if request.config is Some
                && request.config->Some_0.fingerprint != e.stamp.fingerprint {
                1nat
            } else {
                0nat
            }
            &&& notes.len() == 1 ==> notes[0] == note_text(e.stamp, request.config->Some_0)
            &&& session is Some ==> session == request.session && session->Some_0.len() > 0
            &&& session is None ==> (request.session is None || request.session->Some_0.len()
                == 0)
        },
{
}

/// How many sessions are attached decides about nothing but a shutdown.
pub proof fn law_only_a_shutdown_minds_the_sessions(
    e: EndpointView,
    request: HandshakeView,
    m: nat,
    n: nat,
)
    requires
        request.kind != ConnectionKind::Shutdown || request.force || (m == 0 <==> n == 0),
    ensures
        refusal_of(e, request, m) == refusal_of(e, request, n),
        then_of(e, request, m) == then_of(e, request, n),
{
}

/// A hook of this build is served exactly where hooks are enabled, whatever its
/// configuration.
pub proof fn law_a_hook_is_served_where_hooks_are(
    e: EndpointView,
    request: HandshakeView,
    sessions: nat,
)
    requires
        request.kind == ConnectionKind::Hook,
        request.mcpls == PROTOCOL,
        request.version == VERSION@,
    ensures
        e.hooks_enabled ==> then_of(e, request, sessions) is ServeHooks,
        !e.hooks_enabled ==> then_of(e, request, sessions) is Close && refusal_of(
            e,
            request,
            sessions,
        ) == Some(RefusalView::HooksDisabled),
{
}

/// A connection is closed exactly where it is refused, and the reply gives the
/// reason: another build, sessions that stand against a shutdown, hooks that
/// are off, or another view of the project's file.
pub proof fn law_a_refusal_has_its_reason(
    e: EndpointView,
    request: HandshakeView,
    sessions: usize,
    pid: u32,
)
    ensures
        then_of(e, request, sessions as nat) is Close <==> reply_of(
            e,
            request,
            sessions,
            pid,
        ).refusal is Some,
        reply_of(e, request, sessions, pid).refusal matches Some(reason) ==> {
            ||| reason is Attached && request.kind == ConnectionKind::Shutdown && sessions > 0
                && !request.force
            ||| reason is Build && request.kind != ConnectionKind::Shutdown && (request.mcpls
                != PROTOCOL || request.version != VERSION@)
            ||| reason is HooksDisabled && request.kind == ConnectionKind::Hook
                && !e.hooks_enabled
            ||| reason == (RefusalView::Trust { backend: e.stamp }) && request.kind
                == ConnectionKind::Mcp && request.config is Some && handshake::in_conflict(
                e.stamp,
                request.config->Some_0,
            )
        },
{
}

/// The reply names this build, the process and the sessions attached to it, and
/// says whether the backend stays up from now on.
pub proof fn law_a_reply_describes_the_backend(
    e: EndpointView,
    request: HandshakeView,
    sessions: usize,
    pid: u32,
)
    ensures
        reply_of(e, request, sessions, pid).mcpls == PROTOCOL,
        reply_of(e, request, sessions, pid).version == VERSION@,
        reply_of(e, request, sessions, pid).pid == pid,
        reply_of(e, request, sessions, pid).sessions == sessions,
        reply_of(e, request, sessions, pid).kept == kept_after(e, request),
{
}

/// A request other than a shutdown keeps the backend where it asks for that,
/// lets it go where it asks for that alone, and otherwise leaves it as it was.
pub proof fn law_keeping_follows_the_last_request(e: EndpointView, request: HandshakeView)
    requires
        request.kind != ConnectionKind::Shutdown,
    ensures
        request.keep ==> kept_after(e, request),
        request.release && !request.keep ==> !kept_after(e, request),
        !request.keep && !request.release ==> kept_after(e, request) == e.kept,
{
}

/// The sessions attached to a backend, in the order of their connections.
pub struct Attachments {
    entries: Vec<(ConnectionId, String)>,
}

/// No connection stands twice, and they stand in order.
pub open spec fn in_connection_order(rows: Seq<(u64, Seq<char>)>) -> bool {
    forall|i: int, j: int|
        0 <= i < j < rows.len() ==> (#[trigger] rows[i]).0 < (#[trigger] rows[j]).0
}

/// Which session each connection is, row by row.
pub open spec fn attached_map(rows: Seq<(u64, Seq<char>)>) -> Map<u64, Seq<char>> {
    crate::table::rows_map(rows)
}

impl Attachments {
    /// The attached sessions, in order.
    pub closed spec fn rows(self) -> Seq<(u64, Seq<char>)> {
        self.entries.deep_view()
    }

    #[verifier::type_invariant]
    spec fn ordered(self) -> bool {
        in_connection_order(self.rows())
    }
}

impl View for Attachments {
    type V = Map<u64, Seq<char>>;

    open spec fn view(&self) -> Map<u64, Seq<char>> {
        attached_map(self.rows())
    }
}

proof fn lemma_ordered_is_distinct(rows: Seq<(u64, Seq<char>)>)
    requires
        in_connection_order(rows),
    ensures
        crate::table::distinct_rows(rows),
{
}

impl Attachments {
    /// Nobody attached.
    pub fn new() -> (r: Self)
        ensures
            r@ == Map::<u64, Seq<char>>::empty(),
            r.rows() == Seq::<(u64, Seq<char>)>::empty(),
    {
        let entries: Vec<(ConnectionId, String)> = Vec::new();
        assert(entries.deep_view() =~= Seq::<(u64, Seq<char>)>::empty());
        let r = Attachments { entries };
        assert(r@ =~= Map::<u64, Seq<char>>::empty());
        r
    }

    fn place_of(&self, connection: ConnectionId) -> (r: usize)
        ensures
            r <= self.rows().len(),
            forall|i: int| 0 <= i < r ==> (#[trigger] self.rows()[i]).0 < connection.number,
            forall|i: int|
                r <= i < self.rows().len() ==> (#[trigger] self.rows()[i]).0 >= connection.number,
    {
        proof {
            use_type_invariant(self);
        }
        let mut i: usize = 0;
        while i < self.entries.len() && self.entries[i].0.number < connection.number
            invariant
                i <= self.entries.len(),
                forall|j: int| 0 <= j < i ==> (#[trigger] self.rows()[j]).0 < connection.number,
            decreases self.entries.len() - i,
        {
            assert(self.rows()[i as int].0 < connection.number);
            i = i + 1;
        }
        proof {
            let rows = self.rows();
            assert forall|j: int| i <= j < rows.len() implies (#[trigger] rows[j]).0
                >= connection.number by {
                assert(rows[i as int].0 == self.entries[i as int].0.number);
                if j > i {
                    assert(rows[i as int].0 < rows[j].0);
                }
            }
        }
        i
    }

    /// Attach `connection` as `session`.
    pub fn attach(&mut self, connection: ConnectionId, session: String)
        ensures
            final(self)@ == old(self)@.insert(connection.number, session@),
            in_connection_order(final(self).rows()),
    {
        proof {
            use_type_invariant(&*self);
        }
        let ghost before = self.rows();
        let ghost name = session@;
        let at: usize = self.place_of(connection);
        let mut entries: Vec<(ConnectionId, String)> = Vec::new();
        std::mem::swap(&mut self.entries, &mut entries);
        let present = at < entries.len() && entries[at].0.number == connection.number;
        if present {
            entries.set(at, (connection, session));
        } else {
            entries.insert(at, (connection, session));
        }
        proof {
            let after = entries.deep_view();
            let k = connection.number;
            lemma_ordered_is_distinct(before);
            crate::table::lemma_put_row(before, k, name);
            crate::table::lemma_rows_map(before);
            if present {
                assert(before[at as int].0 == k);
                assert(after =~= before.update(at as int, (k, name)));
                assert(crate::table::has_row(before, k));
                assert(crate::table::row_of(before, k) == at);
            } else {
                assert(after =~= before.insert(at as int, (k, name)));
                assert forall|i: int, j: int| 0 <= i < j < after.len() implies (
                #[trigger] after[i]).0 < (#[trigger] after[j]).0 by {
                    if i == at {
                        assert(after[j] == before[j - 1]);
                        assert(before[j - 1].0 >= k);
                        if before[j - 1].0 == k {
                            if j - 1 > at {
                                assert(before[at as int].0 < before[j - 1].0);
                                assert(before[at as int].0 >= k);
                            }
                        }
                    } else if j == at {
                        assert(after[i] == before[i]);
                    } else {
                        let i0 = if i < at { i } else { i - 1 };
                        let j0 = if j < at { j } else { j - 1 };
                        assert(before[i0].0 < before[j0].0);
                    }
                }
                lemma_insert_row(before, at as int, k, name);
            }
        }
        self.entries = entries;
    }

    /// Detach `connection`.
    pub fn detach(&mut self, connection: ConnectionId)
        ensures
            final(self)@ == old(self)@.remove(connection.number),
            in_connection_order(final(self).rows()),
    {
        proof {
            use_type_invariant(&*self);
        }
        let ghost before = self.rows();
        let at: usize = self.place_of(connection);
        let mut entries: Vec<(ConnectionId, String)> = Vec::new();
        std::mem::swap(&mut self.entries, &mut entries);
        let present = at < entries.len() && entries[at].0.number == connection.number;
        if present {
            let _ = entries.remove(at);
        }
        proof {
            let after = entries.deep_view();
            let k = connection.number;
            lemma_ordered_is_distinct(before);
            crate::table::lemma_drop_row(before, k);
            crate::table::lemma_rows_map(before);
            if present {
                assert(before[at as int].0 == k);
                assert(crate::table::has_row(before, k));
                assert(after =~= before.remove(at as int));
                assert(crate::table::row_of(before, k) == at);
            } else {
                assert(after =~= before);
                assert(!crate::table::has_row(before, k)) by {
                    if crate::table::has_row(before, k) {
                        let i = crate::table::row_of(before, k);
                        assert(before[i].0 == k);
                        if i < at {
                            assert(before[i].0 < k);
                        } else if i > at {
                            assert(before[at as int].0 < before[i].0);
                            assert(before[at as int].0 >= k);
                        }
                    }
                }
            }
        }
        self.entries = entries;
    }

    /// How many sessions are attached.
    pub fn count(&self) -> (r: usize)
        ensures
            r == self.rows().len(),
            r == self@.dom().len(),
    {
        proof {
            use_type_invariant(self);
            lemma_ordered_is_distinct(self.rows());
            lemma_row_count(self.rows());
        }
        self.entries.len()
    }

    /// The attached sessions, in the order of their connections.
    pub fn sessions(&self) -> (r: Vec<String>)
        ensures
            in_connection_order(self.rows()),
            r.deep_view() == self.rows().map_values(|row: (u64, Seq<char>)| row.1),
    {
        proof {
            use_type_invariant(self);
        }
        let ghost f = |row: (u64, Seq<char>)| row.1;
        let mut r: Vec<String> = Vec::new();
        let mut i: usize = 0;
        while i < self.entries.len()
            invariant
                i <= self.entries.len(),
                f == (|row: (u64, Seq<char>)| row.1),
                r.deep_view() == self.rows().take(i as int).map_values(f),
            decreases self.entries.len() - i,
        {
            let ghost before = r.deep_view();
            r.push(self.entries[i].1.clone());
            i = i + 1;
            assert(r.deep_view() =~= before.push(self.rows()[i - 1].1));
            assert(self.rows().take(i as int).map_values(f) =~= before.push(self.rows()[i - 1].1));
        }
        assert(self.rows().take(i as int) =~= self.rows());
        r
    }
}

proof fn lemma_insert_row(before: Seq<(u64, Seq<char>)>, at: int, k: u64, v: Seq<char>)
    requires
        crate::table::distinct_rows(before),
        crate::table::distinct_rows(before.insert(at, (k, v))),
        0 <= at <= before.len(),
    ensures
        crate::table::rows_map(before.insert(at, (k, v))) == crate::table::rows_map(before).insert(
            k,
            v,
        ),
{
    let after = before.insert(at, (k, v));
    crate::table::lemma_rows_map(before);
    crate::table::lemma_rows_map(after);
    let m = crate::table::rows_map(before).insert(k, v);
    let n = crate::table::rows_map(after);
    assert forall|x: u64| n.dom().contains(x) <==> m.dom().contains(x) by {
        if n.dom().contains(x) {
            let i = crate::table::row_of(after, x);
            if i != at {
                let i0 = if i < at { i } else { i - 1 };
                assert(before[i0].0 == x);
                assert(crate::table::rows_map(before).dom().contains(before[i0].0));
            }
        }
        if m.dom().contains(x) {
            if x == k {
                assert(after[at].0 == k);
                assert(n.dom().contains(after[at].0));
            } else {
                let i = crate::table::row_of(before, x);
                let i1 = if i < at { i } else { i + 1 };
                assert(after[i1].0 == x);
                assert(n.dom().contains(after[i1].0));
            }
        }
    }
    assert(n.dom() =~= m.dom());
    assert forall|x: u64| n.dom().contains(x) implies n[x] == m[x] by {
        if x == k {
            assert(n[after[at].0] == after[at].1);
        } else {
            let i = crate::table::row_of(before, x);
            let i1 = if i < at { i } else { i + 1 };
            assert(n[after[i1].0] == after[i1].1);
            assert(crate::table::rows_map(before)[before[i].0] == before[i].1);
        }
    }
    assert(n =~= m);
}

proof fn lemma_row_count(rows: Seq<(u64, Seq<char>)>)
    requires
        crate::table::distinct_rows(rows),
    ensures
        crate::table::rows_map(rows).dom().len() == rows.len(),
    decreases rows.len(),
{
    let m = crate::table::rows_map(rows);
    crate::table::lemma_rows_map(rows);
    if rows.len() == 0 {
        assert(m.dom() =~= Set::<u64>::empty());
    } else {
        let less = rows.drop_last();
        lemma_row_count(less);
        crate::table::lemma_rows_map(less);
        let k = rows.last().0;
        let n = crate::table::rows_map(less);
        assert(!n.dom().contains(k)) by {
            if n.dom().contains(k) {
                let i = crate::table::row_of(less, k);
                assert(rows[i].0 == rows[rows.len() - 1].0);
            }
        }
        assert forall|x: u64| m.dom().contains(x) <==> n.dom().insert(k).contains(x) by {
            if m.dom().contains(x) {
                let i = crate::table::row_of(rows, x);
                if i < less.len() {
                    assert(less[i].0 == x);
                    assert(n.dom().contains(less[i].0));
                }
            }
            if n.dom().contains(x) {
                let i = crate::table::row_of(less, x);
                assert(rows[i].0 == x);
                assert(m.dom().contains(rows[i].0));
            }
            assert(m.dom().contains(rows[rows.len() - 1].0));
        }
        assert(m.dom() =~= n.dom().insert(k));
        assert(n.dom().finite()) by {
            lemma_rows_finite(less);
        }
    }
}

proof fn lemma_rows_finite(rows: Seq<(u64, Seq<char>)>)
    ensures
        crate::table::rows_map(rows).dom().finite(),
{
    let keys = rows.map_values(|row: (u64, Seq<char>)| row.0);
    let d = crate::table::rows_map(rows).dom();
    assert(d.subset_of(keys.to_set())) by {
        assert forall|x: u64| d.contains(x) implies keys.to_set().contains(x) by {
            let i = crate::table::row_of(rows, x);
            assert(keys[i] == x);
        }
    }
    vstd::seq_lib::seq_to_set_is_finite(keys);
    vstd::set_lib::lemma_set_subset_finite(keys.to_set(), d);
}

/// Since when nothing holds a backend, of which `count` sessions are attached.
pub open spec fn free_from(count: usize, kept: bool, now: Instant) -> Option<Instant> {
    if count != 0 || kept {
        None
    } else {
        Some(now)
    }
}

/// Whether nothing has held a backend for a whole wait.
pub open spec fn waited_out(since: Option<Instant>, wait: Duration, now: Instant) -> bool {
    since is Some && clock::elapsed(now, since->Some_0) >= wait
}

/// A backend to which a session is attached, or which is kept, never exits for
/// want of use. Any other exits once the whole wait has passed since it was set
/// free, and not before.
pub proof fn law_an_idle_backend_waits_its_time(
    count: usize,
    kept: bool,
    freed: Instant,
    wait: Duration,
    now: Instant,
)
    requires
        freed <= now,
    ensures
        waited_out(free_from(count, kept, freed), wait, now) <==> count == 0 && !kept && now
            - freed >= wait,
{
}

/// When a backend that nobody uses may exit.
pub struct IdleWatch {
    since: Option<Instant>,
    idle: Duration,
}

impl IdleWatch {
    /// Since when nothing has held the backend.
    pub closed spec fn free_since(self) -> Option<Instant> {
        self.since
    }

    /// How long nothing must hold it.
    pub closed spec fn patience(self) -> Duration {
        self.idle
    }

    /// Watch a backend of which `count` sessions are attached.
    pub fn new(idle: Duration, count: usize, kept: bool, now: Instant) -> (r: Self)
        ensures
            r.patience() == idle,
            r.free_since() == (if count != 0 || kept {
                None
            } else {
                Some(now)
            }),
            r.free_since() == free_from(count, kept, now),
    {
        IdleWatch {
            since: if count != 0 || kept {
                None
            } else {
                Some(now)
            },
            idle,
        }
    }

    /// Take note of a change in what holds the backend. The wait starts over.
    pub fn changed(&mut self, count: usize, kept: bool, now: Instant)
        ensures
            final(self).patience() == old(self).patience(),
            final(self).free_since() == (if count != 0 || kept {
                None
            } else {
                Some(now)
            }),
            final(self).free_since() == free_from(count, kept, now),
    {
        self.since = if count != 0 || kept {
            None
        } else {
            Some(now)
        };
    }

    /// Whether the backend may exit: nothing has held it for the whole wait,
    /// without a break.
    pub fn expired(&self, now: Instant) -> (r: bool)
        ensures
            r == (self.free_since() is Some && clock::elapsed(now, self.free_since()->Some_0)
                >= self.patience()),
            r == waited_out(self.free_since(), self.patience(), now),
    {
        match self.since {
            Some(since) => duration_since(now, since) >= self.idle,
            None => false,
        }
    }
}

/// A request that sets nothing is of this build, names nobody and changes
/// nothing but what its kind is for: a hook is served where hooks are and leaves
/// the keeping alone, and a shutdown is refused exactly where sessions are
/// attached.
pub proof fn law_a_bare_request_asks_for_nothing_more(
    e: EndpointView,
    kind: ConnectionKind,
    sessions: nat,
)
    ensures
        ({
            let request = handshake::bare_handshake(kind);
            &&& request.kind == kind
            &&& request.mcpls == PROTOCOL
            &&& request.version == VERSION@
            &&& request.root is None
            &&& request.session is None
            &&& request.config is None
            &&& kind == ConnectionKind::Mcp ==> refusal_of(e, request, sessions) is None
            &&& kind == ConnectionKind::Hook ==> (refusal_of(e, request, sessions) is None
                <==> e.hooks_enabled)
            &&& kind == ConnectionKind::Shutdown ==> (refusal_of(e, request, sessions) is None
                <==> sessions == 0)
            &&& kind != ConnectionKind::Shutdown ==> kept_after(e, request) == e.kept
        }),
{
}

/// A shutdown that is forced is refused nowhere, a request to keep the backend
/// keeps it, and one to release it lets it go.
pub proof fn law_a_request_does_what_it_sets(e: EndpointView, sessions: nat)
    ensures
        refusal_of(
            e,
            (HandshakeView { force: true, ..handshake::bare_handshake(ConnectionKind::Shutdown) }),
            sessions,
        ) is None,
        kept_after(
            e,
            (HandshakeView { keep: true, ..handshake::bare_handshake(ConnectionKind::Hook) }),
        ),
        !kept_after(
            e,
            (HandshakeView { release: true, ..handshake::bare_handshake(ConnectionKind::Hook) }),
        ),
{
}

} // verus!
