//! Who a diagnostic record belongs to.

use crate::table::Key;
use crate::text;
use crate::text::decimal;
use vstd::prelude::*;
use vstd::string::*;

verus! {

/// Identity of one client session.
///
/// A host that names its session names it for every connection it opens, so a
/// hook and the agent's own tool call read one record. A connection whose host
/// names nothing reads a record of its own.
#[derive(Clone, Debug, PartialEq, Eq, Hash)]
pub struct SessionId {
    /// The session's name.
    pub name: String,
}

impl View for SessionId {
    type V = Seq<char>;

    open spec fn view(&self) -> Seq<char> {
        self.name@
    }
}

impl DeepView for SessionId {
    type V = Seq<char>;

    open spec fn deep_view(&self) -> Seq<char> {
        self.name@
    }
}

impl Key for SessionId {
    fn same(&self, other: &Self) -> (r: bool) {
        self.name == other.name
    }

    fn dup(&self) -> (r: Self) {
        SessionId { name: self.name.clone() }
    }
}

/// The name of the session that connection `number` reads when its host names
/// none.
pub open spec fn connection_session(number: nat) -> Seq<char> {
    "connection-"@ + text::dec_text(number)
}

impl SessionId {
    /// The session named `name`.
    pub fn from(name: String) -> (r: Self)
        ensures
            r@ == name@,
    {
        SessionId { name }
    }

    /// The session a host named, or `None` when the value is absent or empty.
    pub fn named(value: Option<String>) -> (r: Option<Self>)
        ensures
            r.deep_view() == match value {
                Some(name) if name@.len() > 0 => Some(name@),
                _ => None,
            },
            r.deep_view() == crate::endpoint::named_session(value.deep_view()),
    {
        match value {
            Some(name) => if name.as_str().is_empty() {
                None
            } else {
                Some(SessionId { name })
            },
            None => None,
        }
    }

    /// The record a connection whose host named no session reads.
    pub fn for_connection(connection: ConnectionId) -> (r: Self)
        ensures
            r@ == connection_session(connection.number as nat),
    {
        SessionId { name: connection.to_text() }
    }

    /// The session's name.
    pub fn as_str(&self) -> (r: &str)
        ensures
            r@ == self@,
    {
        self.name.as_str()
    }
}

/// One connection to this process, numbered in the order in which they came.
#[derive(Clone, Copy, Debug, PartialEq, Eq, PartialOrd, Ord, Hash, Structural)]
pub struct ConnectionId {
    /// The number.
    pub number: u64,
}

impl DeepView for ConnectionId {
    type V = u64;

    open spec fn deep_view(&self) -> u64 {
        self.number
    }
}

impl Key for ConnectionId {
    fn same(&self, other: &Self) -> (r: bool) {
        self.number == other.number
    }

    fn dup(&self) -> (r: Self) {
        *self
    }
}

impl ConnectionId {
    /// The number after the last one that `counter` gave out. It starts at zero,
    /// so the first connection is number one.
    pub fn next(counter: &mut u64) -> (r: Self)
        requires
            *old(counter) < u64::MAX,
        ensures
            r.number == *old(counter) + 1,
            *final(counter) == *old(counter) + 1,
    {
        *counter = *counter + 1;
        ConnectionId { number: *counter }
    }

    /// The connection as it is written in logs and session names.
    pub fn to_text(&self) -> (r: String)
        ensures
            r@ == connection_session(self.number as nat),
    {
        let mut r = "connection-".to_owned();
        r.append(decimal(self.number).as_str());
        r
    }
}

/// Connections that are told apart read records that are told apart.
pub proof fn law_each_connection_has_its_own_session(a: u64, b: u64)
    ensures
        connection_session(a as nat) == connection_session(b as nat) ==> a == b,
{
    let prefix = "connection-"@;
    let x = text::dec_text(a as nat);
    let y = text::dec_text(b as nat);
    if prefix + x == prefix + y {
        assert((prefix + x).skip(prefix.len() as int) =~= x);
        assert((prefix + y).skip(prefix.len() as int) =~= y);
        text::lemma_dec_text_injective(a as nat, b as nat);
    }
}

/// The independently acknowledged diagnostic record of a caller.
#[derive(Clone, Debug, PartialEq, Eq, Hash)]
pub enum RecordId {
    /// A host session or Codex thread.
    Session(SessionId),
    /// An agent whose identifier is scoped to its root session.
    ClaudeAgent {
        /// The root session that scopes the identifier.
        root: SessionId,
        /// The identifier carried by the agent's hook payload.
        agent: String,
    },
}

/// What a [`RecordId`] stands for.
pub enum RecordView {
    /// A host session or Codex thread.
    Session(Seq<char>),
    /// An agent of a root session.
    ClaudeAgent {
        /// The root session that scopes the identifier.
        root: Seq<char>,
        /// The identifier.
        agent: Seq<char>,
    },
}

impl RecordView {
    /// The session that scopes the record.
    pub open spec fn session(self) -> Seq<char> {
        match self {
            RecordView::Session(session) => session,
            RecordView::ClaudeAgent { root, .. } => root,
        }
    }
}

impl DeepView for RecordId {
    type V = RecordView;

    open spec fn deep_view(&self) -> RecordView {
        match self {
            RecordId::Session(session) => RecordView::Session(session@),
            RecordId::ClaudeAgent { root, agent } => RecordView::ClaudeAgent {
                root: root@,
                agent: agent@,
            },
        }
    }
}

impl Key for RecordId {
    fn same(&self, other: &Self) -> (r: bool) {
        match (self, other) {
            (RecordId::Session(a), RecordId::Session(b)) => a.same(b),
            (
                RecordId::ClaudeAgent { root: a, agent: x },
                RecordId::ClaudeAgent { root: b, agent: y },
            ) => a.same(b) && *x == *y,
            _ => false,
        }
    }

    fn dup(&self) -> (r: Self) {
        match self {
            RecordId::Session(session) => RecordId::Session(session.dup()),
            RecordId::ClaudeAgent { root, agent } => RecordId::ClaudeAgent {
                root: root.dup(),
                agent: agent.clone(),
            },
        }
    }
}

impl RecordId {
    /// The record of a session.
    pub fn of_session(session: &SessionId) -> (r: Self)
        ensures
            r.deep_view() == RecordView::Session(session@),
    {
        RecordId::Session(session.dup())
    }

    /// The session that scopes the record.
    pub fn session(&self) -> (r: &SessionId)
        ensures
            r@ == self.deep_view().session(),
    {
        match self {
            RecordId::Session(session) => session,
            RecordId::ClaudeAgent { root, .. } => root,
        }
    }
}

/// A delivery record and its root, when the host has identified the root.
#[derive(Clone, Debug, PartialEq, Eq)]
pub struct Caller {
    /// The caller's independent delivery history.
    pub record: RecordId,
    /// The root session, once either entry point has identified it.
    pub root: Option<SessionId>,
}

/// What a [`Caller`] stands for.
pub struct CallerView {
    /// The caller's record.
    pub record: RecordView,
    /// The root session, when known.
    pub root: Option<Seq<char>>,
}

impl DeepView for Caller {
    type V = CallerView;

    open spec fn deep_view(&self) -> CallerView {
        CallerView { record: self.record.deep_view(), root: self.root.deep_view() }
    }
}

/// A second optional session.
pub fn dup_session(session: &Option<SessionId>) -> (r: Option<SessionId>)
    ensures
        r.deep_view() == session.deep_view(),
{
    match session {
        Some(session) => Some(session.dup()),
        None => None,
    }
}

/// The host whose hook supplies the agent identity.
#[derive(Clone, Copy, Debug, PartialEq, Eq, Structural)]
pub enum HookHost {
    /// A host whose agents share the session of their root.
    Claude,
    /// A host whose agents have sessions of their own.
    Codex,
}

impl Default for HookHost {
    fn default() -> (r: Self)
        ensures
            r == HookHost::Claude,
    {
        HookHost::Claude
    }
}

/// Optional agent fields of a hook request.
#[derive(Clone, Debug, PartialEq, Eq)]
pub struct HookAgent {
    /// Missing or empty for a root-session hook.
    pub agent_id: Option<String>,
    /// Determines the scope of the agent identifier.
    pub host: HookHost,
}

impl Default for HookAgent {
    fn default() -> (r: Self)
        ensures
            r.agent_id is None,
            r.host == HookHost::Claude,
    {
        HookAgent { agent_id: None, host: HookHost::Claude }
    }
}

/// The caller that a hook speaks for: an agent under its root or as a session
/// of its own, depending on the host, and without an agent the root itself.
pub open spec fn hook_caller(host: HookHost, agent: Option<Seq<char>>, session: Seq<char>) -> CallerView {
    CallerView {
        record: match (host, agent) {
            (HookHost::Claude, Some(agent)) if agent.len() > 0 => RecordView::ClaudeAgent {
                root: session,
                agent,
            },
            (HookHost::Codex, Some(agent)) if agent.len() > 0 => RecordView::Session(agent),
            _ => RecordView::Session(session),
        },
        root: Some(session),
    }
}

impl HookAgent {
    /// Resolve the hook's root and agent without concatenating identifiers.
    pub fn caller(&self, session: &str) -> (r: Caller)
        ensures
            r.deep_view() == hook_caller(self.host, self.agent_id.deep_view(), session@),
    {
        let root = SessionId { name: session.to_owned() };
        let record = match &self.agent_id {
            Some(agent) if !agent.as_str().is_empty() => match self.host {
                HookHost::Claude => RecordId::ClaudeAgent {
                    root: root.dup(),
                    agent: agent.clone(),
                },
                HookHost::Codex => RecordId::Session(SessionId { name: agent.clone() }),
            },
            _ => RecordId::Session(root.dup()),
        };
        Caller { record, root: Some(root) }
    }
}

/// A hook speaks under the session it came from. Without an agent it speaks for
/// that session itself. Agents of one session are told apart from each other and
/// from the session; whether agents of the same name in two sessions are told
/// apart depends on the host alone.
pub proof fn law_whom_a_hook_speaks_for(
    host: HookHost,
    a: Seq<char>,
    b: Seq<char>,
    session: Seq<char>,
    other: Seq<char>,
)
    requires
        a.len() > 0,
        b.len() > 0,
    ensures
        hook_caller(host, Some(a), session).root == Some(session),
        hook_caller(host, None, session).root == Some(session),
        hook_caller(host, None, session).record == RecordView::Session(session),
        hook_caller(host, Some(Seq::empty()), session) == hook_caller(host, None, session),
        hook_caller(host, Some(a), session).record == hook_caller(host, Some(b), session).record
            <==> a == b,
        host == HookHost::Claude ==> {
            &&& hook_caller(host, Some(a), session).record.session() == session
            &&& hook_caller(host, Some(a), session).record != hook_caller(
                host,
                None,
                other,
            ).record
            &&& hook_caller(host, Some(a), session).record == hook_caller(
                host,
                Some(a),
                other,
            ).record <==> session == other
        },
        host == HookHost::Codex ==> {
            &&& hook_caller(host, Some(a), session).record == hook_caller(
                host,
                Some(a),
                other,
            ).record
            &&& hook_caller(host, Some(a), session).record.session() == a
        },
{
}

} // verus!
