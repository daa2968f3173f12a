//! The process a host launches: attach to the project's backend, starting one
//! when none answers, or explain why there is no backend.
//!
//! What to do next is a function of where the attempt stands and of what came
//! of the last thing it did; the caller does it and reports back.

use crate::clock::{Duration, Instant};
use crate::config::ConfigSource;
use crate::control::{Contact, ContactView};
use crate::handshake;
use crate::handshake::{
    compare_builds, ConfigStamp, ConnectionKind, Handshake, HandshakeReply, HandshakeView,
    Refusal, RefusalView, ReplyView, StampView,
};
use crate::text;
use crate::text::decimal;
use std::cmp::Ordering;
use vstd::prelude::*;
use vstd::string::*;

verus! {

/// How long to pause between two attempts, in nanoseconds.
pub const PAUSE: Duration = 50_000_000;

/// Where the messages point a reader.
#[derive(Clone, Debug, PartialEq, Eq)]
pub struct Place {
    /// The checkout.
    pub root: String,
    /// The backend's log.
    pub log: String,
}

/// What a [`Place`] stands for.
pub struct PlaceView {
    /// The checkout.
    pub root: Seq<char>,
    /// The backend's log.
    pub log: Seq<char>,
}

impl DeepView for Place {
    type V = PlaceView;

    open spec fn deep_view(&self) -> PlaceView {
        PlaceView { root: self.root@, log: self.log@ }
    }
}

/// The frontend's waits.
#[derive(Clone, Copy, Debug, PartialEq, Eq, Structural)]
pub struct Timing {
    /// How long a spawned backend has to answer.
    pub start: Duration,
    /// How long an evicted backend has to release the endpoint.
    pub gone: Duration,
}

impl Default for Timing {
    fn default() -> (r: Self)
        ensures
            r == (Timing { start: 10_000_000_000, gone: 5_000_000_000 }),
    {
        Timing { start: 10_000_000_000, gone: 5_000_000_000 }
    }
}

/// The whole seconds of a duration.
pub open spec fn seconds(d: Duration) -> nat {
    (d / 1_000_000_000) as nat
}

/// Why there are no tools: the backend could not be started.
pub open spec fn start_failed_text(place: PlaceView, error: Seq<char>) -> Seq<char> {
    "Tell the user: mcpls could not start a backend for "@ + place.root + ": "@ + error
        + ". This session has no mcpls tools. Restart the session after fixing it, or run mcpls with --no-backend."@
}

/// Why there are no tools: the backend did not answer.
pub open spec fn did_not_start_text(place: PlaceView, wait: Duration) -> Seq<char> {
    "Tell the user: the mcpls backend for "@ + place.root + " did not answer within "@
        + text::dec_text(seconds(wait))
        + "s of being started, so this session has no mcpls tools. Its log is "@ + place.log
        + ". Restart the session after fixing it, or run mcpls with --no-backend."@
}

/// Why there are no tools: another process kept the lock.
pub open spec fn busy_starting_text(place: PlaceView, wait: Duration) -> Seq<char> {
    "Tell the user: another mcpls held the lock for starting the backend for "@ + place.root
        + " for over "@ + text::dec_text(seconds(wait))
        + "s, so this session has no mcpls tools. Its log is "@ + place.log + "."@
}

/// Why there are no tools: the endpoint stayed busy.
pub open spec fn busy_endpoint_text(place: PlaceView) -> Seq<char> {
    "Tell the user: the mcpls backend endpoint for "@ + place.root
        + " stayed busy while this session tried to attach, so this session has no mcpls tools. Restart the session after the other mcpls session finishes, or run mcpls with --no-backend."@
}

/// Why there are no tools yet.
pub open spec fn waiting_text(place: PlaceView) -> Seq<char> {
    "mcpls is waiting for its backend for "@ + place.root
        + ". On Windows a hook starts it, so the mcpls plugin's hooks must be installed; tools answer once one has fired. If they are not installed, tell the user to run mcpls with --no-backend."@
}

/// What one side did about the project's file.
pub open spec fn trust_text(stamp: StampView) -> Seq<char> {
    if stamp.source == ConfigSource::Project {
        "loaded the project's mcpls.toml as trusted"@
    } else if stamp.project_ignored {
        "ignored the project's mcpls.toml as untrusted"@
    } else {
        "does not use the project's mcpls.toml"@
    }
}

/// A refusal by its name.
pub open spec fn refusal_text(refusal: Option<RefusalView>) -> Seq<char> {
    match refusal {
        None => "None"@,
        Some(RefusalView::Attached) => "Some(Attached)"@,
        Some(RefusalView::InProcess) => "Some(InProcess)"@,
        Some(RefusalView::HooksDisabled) => "Some(HooksDisabled)"@,
        Some(_) => "Some(Other)"@,
    }
}

/// Whether the request's build is older than the answering one.
pub open spec fn is_older(request: HandshakeView, reply: ReplyView) -> bool {
    handshake::build_before((request.mcpls, request.version), (reply.mcpls, reply.version))
}

/// Whether the request's build is newer than the answering one.
pub open spec fn is_newer(request: HandshakeView, reply: ReplyView) -> bool {
    handshake::build_before((reply.mcpls, reply.version), (request.mcpls, request.version))
}

/// Why there are no tools: the backend refused.
pub open spec fn refused_text(
    place: PlaceView,
    request: HandshakeView,
    reply: ReplyView,
) -> Seq<char> {
    match reply.refusal {
        Some(RefusalView::Build) => if is_older(request, reply) {
            "Tell the user: this session's mcpls is version "@ + request.version
                + ", older than the version "@ + reply.version + " backend already serving "@
                + place.root
                + ", so this session has no mcpls tools. Update the mcpls this session launches, or restart the session with the newer one."@
        } else {
            "Tell the user: this session's mcpls is version "@ + request.version
                + " but the backend serving "@ + place.root + " is version "@ + reply.version
                + " with "@ + text::dec_text(reply.sessions as nat)
                + " other session(s) attached, so this session has no mcpls tools. Restart those sessions to upgrade the backend, then restart this one."@
        },
        Some(RefusalView::Trust { backend }) => "Tell the user: the mcpls backend serving "@
            + place.root + " "@ + trust_text(backend) + ", but this session's mcpls "@ + (
        match request.config {
            Some(config) => trust_text(config),
            None => "has no configuration"@,
        })
            + ". Sessions that disagree about trusting the project's mcpls.toml cannot share a backend. Start every session in this checkout with the same --trust-project-config setting."@,
        other => "Tell the user: the mcpls backend serving "@ + place.root
            + " refused this session ("@ + refusal_text(other)
            + "), so this session has no mcpls tools."@,
    }
}

/// Say that the backend could not be started.
pub fn start_failed(place: &Place, error: &str) -> (r: String)
    ensures
        r@ == start_failed_text(place.deep_view(), error@),
{
    let mut r = "Tell the user: mcpls could not start a backend for ".to_owned();
    r.append(place.root.as_str());
    r.append(": ");
    r.append(error);
    r.append(
        ". This session has no mcpls tools. Restart the session after fixing it, or run mcpls with --no-backend.",
    );
    r
}

/// Say that the backend did not answer.
pub fn did_not_start(place: &Place, wait: Duration) -> (r: String)
    ensures
        r@ == did_not_start_text(place.deep_view(), wait),
{
    let mut r = "Tell the user: the mcpls backend for ".to_owned();
    r.append(place.root.as_str());
    r.append(" did not answer within ");
    r.append(decimal(wait / 1_000_000_000).as_str());
    r.append("s of being started, so this session has no mcpls tools. Its log is ");
    r.append(place.log.as_str());
    r.append(". Restart the session after fixing it, or run mcpls with --no-backend.");
    r
}

/// Say that another process kept the lock.
pub fn busy_starting(place: &Place, wait: Duration) -> (r: String)
    ensures
        r@ == busy_starting_text(place.deep_view(), wait),
{
    let mut r = "Tell the user: another mcpls held the lock for starting the backend for ".to_owned();
    r.append(place.root.as_str());
    r.append(" for over ");
    r.append(decimal(wait / 1_000_000_000).as_str());
    r.append("s, so this session has no mcpls tools. Its log is ");
    r.append(place.log.as_str());
    r.append(".");
    r
}

/// Say that the endpoint stayed busy.
pub fn busy_endpoint(place: &Place) -> (r: String)
    ensures
        r@ == busy_endpoint_text(place.deep_view()),
{
    let mut r = "Tell the user: the mcpls backend endpoint for ".to_owned();
    r.append(place.root.as_str());
    r.append(
        " stayed busy while this session tried to attach, so this session has no mcpls tools. Restart the session after the other mcpls session finishes, or run mcpls with --no-backend.",
    );
    r
}

/// Say that a hook is to start the backend.
pub fn waiting_for_hook(place: &Place) -> (r: String)
    ensures
        r@ == waiting_text(place.deep_view()),
{
    let mut r = "mcpls is waiting for its backend for ".to_owned();
    r.append(place.root.as_str());
    r.append(
        ". On Windows a hook starts it, so the mcpls plugin's hooks must be installed; tools answer once one has fired. If they are not installed, tell the user to run mcpls with --no-backend.",
    );
    r
}

/// What one side did about the project's file.
pub fn trust_state(stamp: &ConfigStamp) -> (r: &'static str)
    ensures
        r@ == trust_text(stamp.deep_view()),
{
    if stamp.source == ConfigSource::Project {
        "loaded the project's mcpls.toml as trusted"
    } else if stamp.project_ignored {
        "ignored the project's mcpls.toml as untrusted"
    } else {
        "does not use the project's mcpls.toml"
    }
}

fn count_words(n: usize) -> (r: String)
    ensures
        r@ == text::dec_text(n as nat),
{
    decimal(n as u64)
}

/// Say why the backend refused.
pub fn refused(place: &Place, request: &Handshake, reply: &HandshakeReply) -> (r: String)
    ensures
        r@ == refused_text(place.deep_view(), request.deep_view(), reply.deep_view()),
{
    match &reply.refusal {
        Some(Refusal::Build) => {
            let mut r = "Tell the user: this session's mcpls is version ".to_owned();
            r.append(request.version.as_str());
            match compare_builds(
                (request.mcpls, request.version.as_str()),
                (reply.mcpls, reply.version.as_str()),
            ) {
                Ordering::Less => {
                    r.append(", older than the version ");
                    r.append(reply.version.as_str());
                    r.append(" backend already serving ");
                    r.append(place.root.as_str());
                    r.append(
                        ", so this session has no mcpls tools. Update the mcpls this session launches, or restart the session with the newer one.",
                    );
                },
                _ => {
                    r.append(" but the backend serving ");
                    r.append(place.root.as_str());
                    r.append(" is version ");
                    r.append(reply.version.as_str());
                    r.append(" with ");
                    r.append(count_words(reply.sessions).as_str());
                    r.append(
                        " other session(s) attached, so this session has no mcpls tools. Restart those sessions to upgrade the backend, then restart this one.",
                    );
                },
            }
            r
        },
        Some(Refusal::Trust { backend }) => {
            let mut r = "Tell the user: the mcpls backend serving ".to_owned();
            r.append(place.root.as_str());
            r.append(" ");
            r.append(trust_state(backend));
            r.append(", but this session's mcpls ");
            r.append(
                match &request.config {
                    Some(config) => trust_state(config),
                    None => "has no configuration",
                },
            );
            r.append(
                ". Sessions that disagree about trusting the project's mcpls.toml cannot share a backend. Start every session in this checkout with the same --trust-project-config setting.",
            );
            r
        },
        other => {
            let mut r = "Tell the user: the mcpls backend serving ".to_owned();
            r.append(place.root.as_str());
            r.append(" refused this session (");
            r.append(
                match other {
                    None => "None",
                    Some(Refusal::Attached) => "Some(Attached)",
                    Some(Refusal::InProcess) => "Some(InProcess)",
                    Some(Refusal::HooksDisabled) => "Some(HooksDisabled)",
                    Some(_) => "Some(Other)",
                },
            );
            r.append("), so this session has no mcpls tools.");
            r
        },
    }
}

/// Where an attempt to attach stands.
#[derive(Clone, Debug, PartialEq, Eq)]
pub enum AttachState {
    /// The first handshake was sent.
    Knocking,
    /// An idle older backend was asked to exit.
    Evicting {
        /// How it had refused.
        reply: HandshakeReply,
    },
    /// It agreed to exit and has until `deadline` to be gone.
    Leaving {
        /// How it had refused.
        reply: HandshakeReply,
        /// When the wait ends.
        deadline: u128,
    },
    /// The lock for starting a backend is being taken.
    Locking,
    /// The handshake was sent again, under the lock.
    KnockingLocked,
    /// A backend is being started.
    Starting,
    /// A backend was spawned and has until `deadline` to answer.
    Polling {
        /// When the wait ends.
        deadline: u128,
    },
    /// It is over.
    Over,
}

/// What an [`AttachState`] stands for.
pub enum StateView {
    /// The first handshake was sent.
    Knocking,
    /// An idle older backend was asked to exit.
    Evicting {
        /// How it had refused.
        reply: ReplyView,
    },
    /// It agreed to exit and has until `deadline` to be gone.
    Leaving {
        /// How it had refused.
        reply: ReplyView,
        /// When the wait ends.
        deadline: int,
    },
    /// The lock for starting a backend is being taken.
    Locking,
    /// The handshake was sent again, under the lock.
    KnockingLocked,
    /// A backend is being started.
    Starting,
    /// A backend was spawned and has until `deadline` to answer.
    Polling {
        /// When the wait ends.
        deadline: int,
    },
    /// It is over.
    Over,
}

impl DeepView for AttachState {
    type V = StateView;

    open spec fn deep_view(&self) -> StateView {
        match self {
            AttachState::Knocking => StateView::Knocking,
            AttachState::Evicting { reply } => StateView::Evicting { reply: reply.deep_view() },
            AttachState::Leaving { reply, deadline } => StateView::Leaving {
                reply: reply.deep_view(),
                deadline: *deadline as int,
            },
            AttachState::Locking => StateView::Locking,
            AttachState::KnockingLocked => StateView::KnockingLocked,
            AttachState::Starting => StateView::Starting,
            AttachState::Polling { deadline } => StateView::Polling { deadline: *deadline as int },
            AttachState::Over => StateView::Over,
        }
    }
}

/// What came of the last thing that was done.
#[derive(Clone, Debug, PartialEq, Eq)]
pub enum AttachEvent {
    /// A server answered the handshake.
    Answered(HandshakeReply),
    /// A connection was made, as a probe.
    Reached,
    /// Nothing listens.
    Absent,
    /// No connection, or no answer, within its time.
    Busy,
    /// The lock was taken.
    Locked,
    /// The lock was not to be had within its time.
    LockTimedOut,
    /// A backend process was spawned.
    Spawned,
    /// A hook was asked to spawn one.
    Requested,
    /// The lock or the start failed, with these words.
    Failed(String),
    /// The pause is over.
    Resumed,
}

/// What an [`AttachEvent`] stands for.
pub enum EventView {
    /// A server answered the handshake.
    Answered(ReplyView),
    /// A connection was made, as a probe.
    Reached,
    /// Nothing listens.
    Absent,
    /// No connection, or no answer, within its time.
    Busy,
    /// The lock was taken.
    Locked,
    /// The lock was not to be had within its time.
    LockTimedOut,
    /// A backend process was spawned.
    Spawned,
    /// A hook was asked to spawn one.
    Requested,
    /// The lock or the start failed, with these words.
    Failed(Seq<char>),
    /// The pause is over.
    Resumed,
}

impl DeepView for AttachEvent {
    type V = EventView;

    open spec fn deep_view(&self) -> EventView {
        match self {
            AttachEvent::Answered(reply) => EventView::Answered(reply.deep_view()),
            AttachEvent::Reached => EventView::Reached,
            AttachEvent::Absent => EventView::Absent,
            AttachEvent::Busy => EventView::Busy,
            AttachEvent::Locked => EventView::Locked,
            AttachEvent::LockTimedOut => EventView::LockTimedOut,
            AttachEvent::Spawned => EventView::Spawned,
            AttachEvent::Requested => EventView::Requested,
            AttachEvent::Failed(e) => EventView::Failed(e@),
            AttachEvent::Resumed => EventView::Resumed,
        }
    }
}

/// What to do next.
#[derive(Clone, Debug, PartialEq, Eq)]
pub enum AttachAction {
    /// Connect, send the request and read the reply.
    Handshake,
    /// Connect, send the request as a shutdown and read the reply.
    SendShutdown,
    /// See whether a connection can be made.
    Probe,
    /// Take the lock, waiting this long at most.
    Lock(Duration),
    /// Start a backend.
    Start,
    /// Pause.
    Pause,
    /// Relay on the stream that the last handshake was read from.
    Attached,
    /// There is no backend yet, for this reason.
    Waiting(String),
    /// There is no backend, for this reason.
    Failed(String),
    /// The attempt was over already.
    Nothing,
}

/// What an [`AttachAction`] stands for.
pub enum ActionView {
    /// Connect, send the request and read the reply.
    Handshake,
    /// Connect, send the request as a shutdown and read the reply.
    SendShutdown,
    /// See whether a connection can be made.
    Probe,
    /// Take the lock, waiting this long at most.
    Lock(Duration),
    /// Start a backend.
    Start,
    /// Pause.
    Pause,
    /// Relay on the stream that the last handshake was read from.
    Attached,
    /// There is no backend yet, for this reason.
    Waiting(Seq<char>),
    /// There is no backend, for this reason.
    Failed(Seq<char>),
    /// The attempt was over already.
    Nothing,
}

impl DeepView for AttachAction {
    type V = ActionView;

    open spec fn deep_view(&self) -> ActionView {
        match self {
            AttachAction::Handshake => ActionView::Handshake,
            AttachAction::SendShutdown => ActionView::SendShutdown,
            AttachAction::Probe => ActionView::Probe,
            AttachAction::Lock(wait) => ActionView::Lock(*wait),
            AttachAction::Start => ActionView::Start,
            AttachAction::Pause => ActionView::Pause,
            AttachAction::Attached => ActionView::Attached,
            AttachAction::Waiting(reason) => ActionView::Waiting(reason@),
            AttachAction::Failed(reason) => ActionView::Failed(reason@),
            AttachAction::Nothing => ActionView::Nothing,
        }
    }
}

/// What an attempt at a handshake means to an attempt to attach. A connection
/// accepted and then closed without a reply is a backend on its way out, so it
/// counts as absent; where a server holds on to it and does not answer, the
/// endpoint is busy.
pub open spec fn event_of(contact: ContactView) -> EventView {
    match contact {
        ContactView::Replied(reply) => EventView::Answered(reply),
        ContactView::TimedOut | ContactView::Unanswered => EventView::Busy,
        _ => EventView::Absent,
    }
}

/// What an attempt at a handshake means to an attempt to attach.
pub fn handshake_event(contact: Contact) -> (r: AttachEvent)
    ensures
        r.deep_view() == event_of(contact.deep_view()),
{
    match contact {
        Contact::Replied(reply) => AttachEvent::Answered(reply),
        Contact::TimedOut | Contact::Unanswered => AttachEvent::Busy,
        _ => AttachEvent::Absent,
    }
}

/// The end of an attempt, without a backend.
pub open spec fn failed(reason: Seq<char>) -> (StateView, ActionView) {
    (StateView::Over, ActionView::Failed(reason))
}

/// What follows a server's answer. An idle older backend may be evicted, but
/// only on the first knock.
pub open spec fn judged(
    place: PlaceView,
    request: HandshakeView,
    reply: ReplyView,
    may_evict: bool,
) -> (StateView, ActionView) {
    match reply.refusal {
        None => (StateView::Over, ActionView::Attached),
        Some(RefusalView::Build) if may_evict && is_newer(request, reply) && reply.sessions == 0 =>
            (StateView::Evicting { reply }, ActionView::SendShutdown),
        Some(_) => failed(refused_text(place, request, reply)),
    }
}

/// The wait of an evicted backend, as of now: over or on with another probe.
pub open spec fn leaving(
    place: PlaceView,
    request: HandshakeView,
    reply: ReplyView,
    deadline: int,
    now: Instant,
) -> (StateView, ActionView) {
    if now < deadline {
        (StateView::Leaving { reply, deadline }, ActionView::Probe)
    } else {
        failed(refused_text(place, request, reply))
    }
}

/// What an attempt does next, given where it stands and what has come of its
/// last action. An event that does not fit changes nothing: the attempt goes on
/// as if nothing had answered.
pub open spec fn attach_step(
    place: PlaceView,
    request: HandshakeView,
    timing: Timing,
    state: StateView,
    event: EventView,
    now: Instant,
) -> (StateView, ActionView) {
    match state {
        StateView::Knocking => match event {
            EventView::Answered(reply) => judged(place, request, reply, true),
            EventView::Busy => failed(busy_endpoint_text(place)),
            _ => (StateView::Locking, ActionView::Lock(timing.start)),
        },
        StateView::Evicting { reply } => match event {
            EventView::Answered(answer) => if answer.refusal is Some {
                failed(refused_text(place, request, reply))
            } else {
                leaving(place, request, reply, now + timing.gone, now)
            },
            EventView::Busy => failed(refused_text(place, request, reply)),
            _ => (StateView::Locking, ActionView::Lock(timing.start)),
        },
        StateView::Leaving { reply, deadline } => match event {
            EventView::Reached => (state, ActionView::Pause),
            EventView::Resumed => leaving(place, request, reply, deadline, now),
            EventView::Busy => failed(refused_text(place, request, reply)),
            _ => (StateView::Locking, ActionView::Lock(timing.start)),
        },
        StateView::Locking => match event {
            EventView::LockTimedOut => failed(busy_starting_text(place, timing.start)),
            EventView::Failed(e) => failed(start_failed_text(place, e)),
            _ => (StateView::KnockingLocked, ActionView::Handshake),
        },
        StateView::KnockingLocked => match event {
            EventView::Answered(reply) => judged(place, request, reply, false),
            EventView::Busy => failed(busy_endpoint_text(place)),
            _ => (StateView::Starting, ActionView::Start),
        },
        StateView::Starting => match event {
            EventView::Failed(e) => failed(start_failed_text(place, e)),
            EventView::Requested => (StateView::Over, ActionView::Waiting(waiting_text(place))),
            _ => (StateView::Polling { deadline: now + timing.start }, ActionView::Handshake),
        },
        StateView::Polling { deadline } => match event {
            EventView::Answered(reply) => judged(place, request, reply, false),
            EventView::Resumed => (state, ActionView::Handshake),
            _ => if now >= deadline {
                failed(did_not_start_text(place, timing.start))
            } else {
                (state, ActionView::Pause)
            },
        },
        StateView::Over => (StateView::Over, ActionView::Nothing),
    }
}

/// An attempt to attach to the project's backend.
pub struct Attach {
    request: Handshake,
    place: Place,
    timing: Timing,
    state: AttachState,
}

/// What an [`Attach`] stands for.
pub struct AttachView {
    /// The handshake it sends.
    pub request: HandshakeView,
    /// Where its messages point.
    pub place: PlaceView,
    /// Its waits.
    pub timing: Timing,
    /// Where it stands.
    pub state: StateView,
}

impl View for Attach {
    type V = AttachView;

    closed spec fn view(&self) -> AttachView {
        AttachView {
            request: self.request.deep_view(),
            place: self.place.deep_view(),
            timing: self.timing,
            state: self.state.deep_view(),
        }
    }
}

fn newer_build(request: &Handshake, reply: &HandshakeReply) -> (r: bool)
    ensures
        r == is_newer(request.deep_view(), reply.deep_view()),
{
    matches!(
        compare_builds(
            (request.mcpls, request.version.as_str()),
            (reply.mcpls, reply.version.as_str()),
        ),
        Ordering::Greater
    )
}

impl Attach {
    /// An attempt whose first action is to send the handshake.
    pub fn new(request: Handshake, place: Place, timing: Timing) -> (r: Self)
        ensures
            r@ == (AttachView {
                request: request.deep_view(),
                place: place.deep_view(),
                timing,
                state: StateView::Knocking,
            }),
    {
        Attach { request, place, timing, state: AttachState::Knocking }
    }

    fn fail(&mut self, reason: String) -> (r: AttachAction)
        ensures
            final(self)@ == (AttachView { state: StateView::Over, ..old(self)@ }),
            r.deep_view() == ActionView::Failed(reason@),
    {
        self.state = AttachState::Over;
        AttachAction::Failed(reason)
    }

    fn lock(&mut self) -> (r: AttachAction)
        ensures
            final(self)@ == (AttachView { state: StateView::Locking, ..old(self)@ }),
            r.deep_view() == ActionView::Lock(old(self)@.timing.start),
    {
        self.state = AttachState::Locking;
        AttachAction::Lock(self.timing.start)
    }

    /// Decide what a server's answer means.
    fn judge(&mut self, reply: HandshakeReply, may_evict: bool) -> (r: AttachAction)
        ensures
            ({
                let v = old(self)@;
                let (state, action) = judged(v.place, v.request, reply.deep_view(), may_evict);
                &&& final(self)@ == (AttachView { state, ..v })
                &&& r.deep_view() == action
            }),
    {
        let newer = newer_build(&self.request, &reply);
        match &reply.refusal {
            None => {
                self.state = AttachState::Over;
                return AttachAction::Attached;
            },
            Some(Refusal::Build) => {
                if may_evict && newer && reply.sessions == 0 {
                    self.state = AttachState::Evicting { reply };
                    return AttachAction::SendShutdown;
                }
            },
            Some(_) => {},
        }
        let reason = refused(&self.place, &self.request, &reply);
        self.fail(reason)
    }

    fn keep_leaving(&mut self, reply: HandshakeReply, deadline: u128, now: Instant) -> (r:
        AttachAction)
        ensures
            ({
                let v = old(self)@;
                let (state, action) = leaving(
                    v.place,
                    v.request,
                    reply.deep_view(),
                    deadline as int,
                    now,
                );
                &&& final(self)@ == (AttachView { state, ..v })
                &&& r.deep_view() == action
            }),
    {
        if (now as u128) < deadline {
            self.state = AttachState::Leaving { reply, deadline };
            AttachAction::Probe
        } else {
            let reason = refused(&self.place, &self.request, &reply);
            self.fail(reason)
        }
    }

    /// What to do next, now that `event` has come of the last action.
    pub fn handle(&mut self, event: AttachEvent, now: Instant) -> (r: AttachAction)
        ensures
            ({
                let v = old(self)@;
                let (state, action) = attach_step(
                    v.place,
                    v.request,
                    v.timing,
                    v.state,
                    event.deep_view(),
                    now,
                );
                &&& final(self)@ == (AttachView { state, ..v })
                &&& r.deep_view() == action
            }),
    {
        let mut state = AttachState::Over;
        std::mem::swap(&mut self.state, &mut state);
        match state {
            AttachState::Knocking => match event {
                AttachEvent::Answered(reply) => self.judge(reply, true),
                AttachEvent::Busy => {
                    let reason = busy_endpoint(&self.place);
                    self.fail(reason)
                },
                _ => self.lock(),
            },
            AttachState::Evicting { reply } => match event {
                AttachEvent::Answered(answer) => {
                    if answer.refusal.is_some() {
                        let reason = refused(&self.place, &self.request, &reply);
                        self.fail(reason)
                    } else {
                        let deadline: u128 = now as u128 + self.timing.gone as u128;
                        self.keep_leaving(reply, deadline, now)
                    }
                },
                AttachEvent::Busy => {
                    let reason = refused(&self.place, &self.request, &reply);
                    self.fail(reason)
                },
                _ => self.lock(),
            },
            AttachState::Leaving { reply, deadline } => match event {
                AttachEvent::Reached => {
                    self.state = AttachState::Leaving { reply, deadline };
                    AttachAction::Pause
                },
                AttachEvent::Resumed => self.keep_leaving(reply, deadline, now),
                AttachEvent::Busy => {
                    let reason = refused(&self.place, &self.request, &reply);
                    self.fail(reason)
                },
                _ => self.lock(),
            },
            AttachState::Locking => match event {
                AttachEvent::LockTimedOut => {
                    let reason = busy_starting(&self.place, self.timing.start);
                    self.fail(reason)
                },
                AttachEvent::Failed(e) => {
                    let reason = start_failed(&self.place, &e);
                    self.fail(reason)
                },
                _ => {
                    self.state = AttachState::KnockingLocked;
                    AttachAction::Handshake
                },
            },
            AttachState::KnockingLocked => match event {
                AttachEvent::Answered(reply) => self.judge(reply, false),
                AttachEvent::Busy => {
                    let reason = busy_endpoint(&self.place);
                    self.fail(reason)
                },
                _ => {
                    self.state = AttachState::Starting;
                    AttachAction::Start
                },
            },
            AttachState::Starting => match event {
                AttachEvent::Failed(e) => {
                    let reason = start_failed(&self.place, &e);
                    self.fail(reason)
                },
                AttachEvent::Requested => {
                    self.state = AttachState::Over;
                    AttachAction::Waiting(waiting_for_hook(&self.place))
                },
                _ => {
                    self.state = AttachState::Polling {
                        deadline: now as u128 + self.timing.start as u128,
                    };
                    AttachAction::Handshake
                },
            },
            AttachState::Polling { deadline } => match event {
                AttachEvent::Answered(reply) => self.judge(reply, false),
                AttachEvent::Resumed => {
                    self.state = AttachState::Polling { deadline };
                    AttachAction::Handshake
                },
                _ => {
                    if now as u128 >= deadline {
                        let reason = did_not_start(&self.place, self.timing.start);
                        self.fail(reason)
                    } else {
                        self.state = AttachState::Polling { deadline };
                        AttachAction::Pause
                    }
                },
            },
            AttachState::Over => AttachAction::Nothing,
        }
    }

    /// The handshake that asks the answering backend to exit.
    pub fn shutdown_request(&self) -> (r: Handshake)
        ensures
            r.deep_view() == (HandshakeView { kind: ConnectionKind::Shutdown, ..self@.request }),
            r.deep_view() == eviction(self@.request),
    {
        Handshake {
            mcpls: self.request.mcpls,
            version: self.request.version.clone(),
            kind: ConnectionKind::Shutdown,
            root: match &self.request.root {
                Some(root) => Some(root.clone()),
                None => None,
            },
            session: match &self.request.session {
                Some(session) => Some(session.clone()),
                None => None,
            },
            config: match &self.request.config {
                Some(config) => Some(config.dup()),
                None => None,
            },
            keep: self.request.keep,
            release: self.request.release,
            force: self.request.force,
        }
    }
}

/// How far an attempt has come. It never goes back.
pub open spec fn progress(state: StateView) -> int {
    match state {
        StateView::Knocking => 0,
        StateView::Evicting { .. } => 1,
        StateView::Leaving { .. } => 2,
        StateView::Locking => 3,
        StateView::KnockingLocked => 4,
        StateView::Starting => 5,
        StateView::Polling { .. } => 6,
        StateView::Over => 7,
    }
}

/// An attempt never goes back, so it starts a backend at most once, and asks
/// one to exit at most once.
pub proof fn law_an_attempt_only_goes_forward(
    place: PlaceView,
    request: HandshakeView,
    timing: Timing,
    state: StateView,
    event: EventView,
    now: Instant,
)
    ensures
        progress(attach_step(place, request, timing, state, event, now).0) >= progress(state),
        attach_step(place, request, timing, state, event, now).1 is Start ==> progress(state) < 5
            && progress(attach_step(place, request, timing, state, event, now).0) == 5,
        attach_step(place, request, timing, state, event, now).1 is SendShutdown ==> progress(state)
            < 1 && progress(attach_step(place, request, timing, state, event, now).0) == 1,
{
}

/// A backend is started only by an attempt that holds the lock and that nothing
/// answered under it: never where the endpoint is busy or a server answered.
pub proof fn law_a_backend_is_started_only_where_none_answers(
    place: PlaceView,
    request: HandshakeView,
    timing: Timing,
    state: StateView,
    event: EventView,
    now: Instant,
)
    requires
        attach_step(place, request, timing, state, event, now).1 is Start,
    ensures
        state is KnockingLocked,
        !(event is Busy),
        !(event is Answered),
{
}

/// Only an idle backend of an older build is ever asked to exit.
pub proof fn law_only_an_idle_older_backend_is_evicted(
    place: PlaceView,
    request: HandshakeView,
    timing: Timing,
    state: StateView,
    event: EventView,
    now: Instant,
)
    requires
        attach_step(place, request, timing, state, event, now).1 is SendShutdown,
    ensures
        event matches EventView::Answered(reply) && reply.refusal == Some(RefusalView::Build)
            && reply.sessions == 0 && is_newer(request, reply) && !is_older(request, reply),
{
    if let EventView::Answered(reply) = event {
        handshake::law_two_builds_are_ordered(
            (request.mcpls, request.version),
            (reply.mcpls, reply.version),
        );
    }
}

/// An attempt that is not over when a server accepts it attaches.
pub proof fn law_an_accepting_backend_is_attached_to(
    place: PlaceView,
    request: HandshakeView,
    timing: Timing,
    state: StateView,
    reply: ReplyView,
    now: Instant,
)
    requires
        reply.refusal is None,
        state is Knocking || state is KnockingLocked || state is Polling,
    ensures
        attach_step(place, request, timing, state, EventView::Answered(reply), now) == (
            StateView::Over,
            ActionView::Attached,
        ),
{
}

/// A backend that hangs up without a reply is on its way out, and a fresh one
/// takes its place: the attempt goes on to the lock, and under the lock it
/// starts a backend.
pub proof fn law_a_backend_on_its_way_out_is_replaced(
    place: PlaceView,
    request: HandshakeView,
    timing: Timing,
    now: Instant,
)
    ensures
        event_of(ContactView::NoReply) == EventView::Absent,
        attach_step(place, request, timing, StateView::Knocking, event_of(ContactView::NoReply), now)
            == (StateView::Locking, ActionView::Lock(timing.start)),
        attach_step(
            place,
            request,
            timing,
            StateView::KnockingLocked,
            event_of(ContactView::NoReply),
            now,
        ) == (StateView::Starting, ActionView::Start),
{
}

/// What a frontend sends to have the backend exit in place of its own request.
pub open spec fn eviction(request: HandshakeView) -> HandshakeView {
    HandshakeView { kind: ConnectionKind::Shutdown, ..request }
}

/// A backend without a session agrees to make way whatever its build, and one
/// with sessions is not driven away by a request that forces nothing. The
/// backend learns who asks.
pub proof fn law_only_an_unused_backend_makes_way(
    e: crate::endpoint::EndpointView,
    request: HandshakeView,
    sessions: nat,
)
    requires
        !request.force,
    ensures
        crate::endpoint::refusal_of(e, eviction(request), sessions) is None <==> sessions == 0,
        eviction(request).version == request.version,
        eviction(request).mcpls == request.mcpls,
        eviction(request).root == request.root,
        eviction(request).session == request.session,
        eviction(request).config == request.config,
{
}

} // verus!
