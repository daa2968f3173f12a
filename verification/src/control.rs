//! Starting, stopping and inspecting a checkout's backend from the command
//! line.
//!
//! A started backend is kept: it stays up with no session attached until a stop
//! or a release, instead of exiting on its idle timer.

use crate::clock::{Duration, Instant};
use crate::handshake::{Handshake, HandshakeReply, HandshakeView, ReplyView};
use vstd::prelude::*;
use vstd::string::*;

verus! {

/// How long a start waits for the spawn lock, and then for its backend: ten
/// seconds.
pub const START_WAIT: Duration = 10_000_000_000;

/// How long a stopped backend has to release the endpoint: five seconds.
pub const STOP_WAIT: Duration = 5_000_000_000;

/// What came of connecting, sending a handshake and reading the reply.
#[derive(Clone, Debug, PartialEq, Eq)]
pub enum Contact {
    /// No connection was accepted.
    Refused,
    /// No connection was made within its time.
    TimedOut,
    /// The connection was closed before the handshake was sent.
    WriteFailed,
    /// The connection was closed without a reply.
    NoReply,
    /// The connection stays open, and no reply could be read in time.
    Unanswered,
    /// This reply came.
    Replied(HandshakeReply),
}

/// What a [`Contact`] stands for.
pub enum ContactView {
    /// No connection was accepted.
    Refused,
    /// No connection was made within its time.
    TimedOut,
    /// The connection was closed before the handshake was sent.
    WriteFailed,
    /// The connection was closed without a reply.
    NoReply,
    /// The connection stays open, and no reply could be read in time.
    Unanswered,
    /// This reply came.
    Replied(ReplyView),
}

impl DeepView for Contact {
    type V = ContactView;

    open spec fn deep_view(&self) -> ContactView {
        match self {
            Contact::Refused => ContactView::Refused,
            Contact::TimedOut => ContactView::TimedOut,
            Contact::WriteFailed => ContactView::WriteFailed,
            Contact::NoReply => ContactView::NoReply,
            Contact::Unanswered => ContactView::Unanswered,
            Contact::Replied(reply) => ContactView::Replied(reply.deep_view()),
        }
    }
}

/// What a handshake on the endpoint found.
#[derive(Clone, Debug, PartialEq, Eq)]
pub enum Found {
    /// Nothing answered.
    Absent,
    /// A connection could not be made within its time.
    Busy,
    /// A server answered; the reply may still refuse the request.
    Answered(HandshakeReply),
}

/// What a [`Found`] stands for.
pub enum FoundView {
    /// Nothing answered.
    Absent,
    /// A connection could not be made within its time.
    Busy,
    /// A server answered; the reply may still refuse the request.
    Answered(ReplyView),
}

impl DeepView for Found {
    type V = FoundView;

    open spec fn deep_view(&self) -> FoundView {
        match self {
            Found::Absent => FoundView::Absent,
            Found::Busy => FoundView::Busy,
            Found::Answered(reply) => FoundView::Answered(reply.deep_view()),
        }
    }
}

/// What an attempt at a handshake found. A connection accepted and then closed
/// without a reply is a backend on its way out, so it counts as absent, as it
/// does for a frontend.
pub open spec fn found_of(contact: ContactView) -> FoundView {
    match contact {
        ContactView::TimedOut => FoundView::Busy,
        ContactView::Replied(reply) => FoundView::Answered(reply),
        _ => FoundView::Absent,
    }
}

/// What an attempt at a handshake found.
pub fn ask(contact: Contact) -> (r: Found)
    ensures
        r.deep_view() == found_of(contact.deep_view()),
{
    match contact {
        Contact::TimedOut => Found::Busy,
        Contact::Replied(reply) => Found::Answered(reply),
        _ => Found::Absent,
    }
}

/// The backend a start left running.
#[derive(Clone, Debug, PartialEq, Eq)]
pub struct Started {
    /// Its answer to the request to stay up.
    pub reply: HandshakeReply,
    /// Whether this start spawned it.
    pub spawned: bool,
}

/// Why a start left no backend running.
#[derive(Clone, Debug, PartialEq, Eq)]
pub enum StartError {
    /// Another process held the spawn lock for the whole wait.
    Locked,
    /// The endpoint stayed busy.
    Busy,
    /// The spawned backend exited, or did not answer in time.
    NoAnswer,
    /// The spawn lock or the process could not be set up.
    Io(String),
}

/// A failed start in words.
pub open spec fn start_error_text(e: StartError) -> Seq<char> {
    match e {
        StartError::Locked =>
            "another mcpls held the lock for starting this backend for over 10s"@,
        StartError::Busy => "the endpoint stayed busy"@,
        StartError::NoAnswer => "the backend did not answer within 10s of being started"@,
        StartError::Io(e) => e@,
    }
}

/// The reasons for which a start fails are told apart, and what could not be set
/// up is told in its own words.
pub proof fn law_failed_starts_are_told_apart(reason: String)
    ensures
        start_error_text(StartError::Locked) != start_error_text(StartError::Busy),
        start_error_text(StartError::Locked) != start_error_text(StartError::NoAnswer),
        start_error_text(StartError::Busy) != start_error_text(StartError::NoAnswer),
        start_error_text(StartError::Io(reason)) == reason@,
{
    reveal_strlit("another mcpls held the lock for starting this backend for over 10s");
    reveal_strlit("the endpoint stayed busy");
    reveal_strlit("the backend did not answer within 10s of being started");
    assert(start_error_text(StartError::Locked).len() != start_error_text(StartError::Busy).len());
    assert(start_error_text(StartError::Locked).len() != start_error_text(
        StartError::NoAnswer,
    ).len());
    assert(start_error_text(StartError::Busy).len() != start_error_text(
        StartError::NoAnswer,
    ).len());
}

impl StartError {
    /// The error in words.
    pub fn to_text(&self) -> (r: String)
        ensures
            r@ == match self {
                StartError::Locked =>
                    "another mcpls held the lock for starting this backend for over 10s"@,
                StartError::Busy => "the endpoint stayed busy"@,
                StartError::NoAnswer => "the backend did not answer within 10s of being started"@,
                StartError::Io(e) => e@,
            },
            r@ == start_error_text(*self),
    {
        match self {
            StartError::Locked =>
                "another mcpls held the lock for starting this backend for over 10s".to_owned(),
            StartError::Busy => "the endpoint stayed busy".to_owned(),
            StartError::NoAnswer =>
                "the backend did not answer within 10s of being started".to_owned(),
            StartError::Io(e) => e.clone(),
        }
    }
}

/// How a start ended.
pub enum StartView {
    /// A backend runs.
    Started {
        /// Its answer.
        reply: ReplyView,
        /// Whether this start spawned it.
        spawned: bool,
    },
    /// The lock was not to be had.
    Locked,
    /// The endpoint stayed busy.
    Busy,
    /// The backend did not answer.
    NoAnswer,
    /// Something failed, with these words.
    Io(Seq<char>),
}

/// Where a start stands.
#[derive(Clone, Copy, Debug, PartialEq, Eq, Structural)]
pub enum StartState {
    /// The spawn lock is being taken.
    Locking,
    /// A running backend is being asked to stay up.
    Asking,
    /// A backend is being spawned.
    Spawning,
    /// The spawned backend has until `deadline` to answer.
    Polling {
        /// When the wait ends.
        deadline: u128,
    },
    /// It is over.
    Over,
}

/// What came of the last thing that was done.
#[derive(Clone, Debug, PartialEq, Eq)]
pub enum StartEvent {
    /// The lock was taken.
    Locked,
    /// The lock was not to be had within its time.
    LockTimedOut,
    /// The handshake found this.
    Found(Found),
    /// The process was spawned, or a pause is over; whether it has exited
    /// since.
    Going {
        /// Whether the process has exited.
        exited: bool,
    },
    /// The lock or the process could not be set up.
    Failed(String),
}

/// What a [`StartEvent`] stands for.
pub enum StartEventView {
    /// The lock was taken.
    Locked,
    /// The lock was not to be had within its time.
    LockTimedOut,
    /// The handshake found this.
    Found(FoundView),
    /// The process was spawned, or a pause is over.
    Going {
        /// Whether the process has exited.
        exited: bool,
    },
    /// The lock or the process could not be set up.
    Failed(Seq<char>),
}

impl DeepView for StartEvent {
    type V = StartEventView;

    open spec fn deep_view(&self) -> StartEventView {
        match self {
            StartEvent::Locked => StartEventView::Locked,
            StartEvent::LockTimedOut => StartEventView::LockTimedOut,
            StartEvent::Found(found) => StartEventView::Found(found.deep_view()),
            StartEvent::Going { exited } => StartEventView::Going { exited: *exited },
            StartEvent::Failed(e) => StartEventView::Failed(e@),
        }
    }
}

/// What a start does next.
#[derive(Debug, PartialEq, Eq)]
pub enum StartAction {
    /// Ask the backend to stay up.
    AskToStay,
    /// Spawn a backend.
    Spawn,
    /// Pause.
    Pause,
    /// It is over.
    Done(Result<Started, StartError>),
    /// It was over already.
    Nothing,
}

/// What a [`StartAction`] stands for.
pub enum StartActionView {
    /// Ask the backend to stay up.
    AskToStay,
    /// Spawn a backend.
    Spawn,
    /// Pause.
    Pause,
    /// It is over.
    Done(StartView),
    /// It was over already.
    Nothing,
}

impl DeepView for StartAction {
    type V = StartActionView;

    open spec fn deep_view(&self) -> StartActionView {
        match self {
            StartAction::AskToStay => StartActionView::AskToStay,
            StartAction::Spawn => StartActionView::Spawn,
            StartAction::Pause => StartActionView::Pause,
            StartAction::Done(Ok(started)) => StartActionView::Done(
                StartView::Started {
                    reply: started.reply.deep_view(),
                    spawned: started.spawned,
                },
            ),
            StartAction::Done(Err(StartError::Locked)) => StartActionView::Done(StartView::Locked),
            StartAction::Done(Err(StartError::Busy)) => StartActionView::Done(StartView::Busy),
            StartAction::Done(Err(StartError::NoAnswer)) => StartActionView::Done(
                StartView::NoAnswer,
            ),
            StartAction::Done(Err(StartError::Io(e))) => StartActionView::Done(StartView::Io(e@)),
            StartAction::Nothing => StartActionView::Nothing,
        }
    }
}

/// What a start does next. It takes the lock, keeps a backend that answers,
/// and otherwise spawns one and asks until it answers, exits or is out of time.
pub open spec fn start_step(state: StartState, event: StartEventView, now: Instant) -> (
    StartState,
    StartActionView,
) {
    let over = |view: StartView| (StartState::Over, StartActionView::Done(view));
    match state {
        StartState::Over => (StartState::Over, StartActionView::Nothing),
        StartState::Locking => match event {
            StartEventView::LockTimedOut => over(StartView::Locked),
            StartEventView::Failed(e) => over(StartView::Io(e)),
            _ => (StartState::Asking, StartActionView::AskToStay),
        },
        StartState::Asking => match event {
            StartEventView::Found(FoundView::Answered(reply)) => over(
                StartView::Started { reply, spawned: false },
            ),
            StartEventView::Found(FoundView::Busy) => over(StartView::Busy),
            _ => (StartState::Spawning, StartActionView::Spawn),
        },
        StartState::Spawning => match event {
            StartEventView::Failed(e) => over(StartView::Io(e)),
            StartEventView::Going { exited } => {
                let deadline = (now + START_WAIT) as u128;
                if exited {
                    over(StartView::NoAnswer)
                } else {
                    (StartState::Polling { deadline }, StartActionView::AskToStay)
                }
            },
            _ => over(StartView::NoAnswer),
        },
        StartState::Polling { deadline } => match event {
            StartEventView::Found(FoundView::Answered(reply)) => over(
                StartView::Started { reply, spawned: true },
            ),
            StartEventView::Going { exited } => if now < deadline && !exited {
                (state, StartActionView::AskToStay)
            } else {
                over(StartView::NoAnswer)
            },
            _ => (state, StartActionView::Pause),
        },
    }
}

/// What a start does next.
pub fn start(state: StartState, event: StartEvent, now: Instant) -> (r: (StartState, StartAction))
    ensures
        (r.0, r.1.deep_view()) == start_step(state, event.deep_view(), now),
{
    match state {
        StartState::Over => (StartState::Over, StartAction::Nothing),
        StartState::Locking => match event {
            StartEvent::LockTimedOut => (
                StartState::Over,
                StartAction::Done(Err(StartError::Locked)),
            ),
            StartEvent::Failed(e) => (StartState::Over, StartAction::Done(Err(StartError::Io(e)))),
            _ => (StartState::Asking, StartAction::AskToStay),
        },
        StartState::Asking => match event {
            StartEvent::Found(Found::Answered(reply)) => (
                StartState::Over,
                StartAction::Done(Ok(Started { reply, spawned: false })),
            ),
            StartEvent::Found(Found::Busy) => (
                StartState::Over,
                StartAction::Done(Err(StartError::Busy)),
            ),
            _ => (StartState::Spawning, StartAction::Spawn),
        },
        StartState::Spawning => match event {
            StartEvent::Failed(e) => (StartState::Over, StartAction::Done(Err(StartError::Io(e)))),
            StartEvent::Going { exited } => {
                let deadline: u128 = now as u128 + START_WAIT as u128;
                if exited {
                    (StartState::Over, StartAction::Done(Err(StartError::NoAnswer)))
                } else {
                    (StartState::Polling { deadline }, StartAction::AskToStay)
                }
            },
            _ => (StartState::Over, StartAction::Done(Err(StartError::NoAnswer))),
        },
        StartState::Polling { deadline } => match event {
            StartEvent::Found(Found::Answered(reply)) => (
                StartState::Over,
                StartAction::Done(Ok(Started { reply, spawned: true })),
            ),
            StartEvent::Going { exited } => {
                if (now as u128) < deadline && !exited {
                    (state, StartAction::AskToStay)
                } else {
                    (StartState::Over, StartAction::Done(Err(StartError::NoAnswer)))
                }
            },
            _ => (state, StartAction::Pause),
        },
    }
}

/// A start spawns a backend only under the lock, and only where nothing
/// answered and the endpoint was not busy.
pub proof fn law_a_start_spawns_only_where_none_answers(
    state: StartState,
    event: StartEventView,
    now: Instant,
)
    requires
        start_step(state, event, now).1 is Spawn,
    ensures
        state is Asking,
        !(event matches StartEventView::Found(FoundView::Answered(_))),
        event != StartEventView::Found(FoundView::Busy),
{
}

/// A start that ends well has an answer in hand, and says truly whether it
/// spawned the backend that gave it.
pub proof fn law_a_start_ends_with_an_answer(state: StartState, event: StartEventView, now: Instant)
    requires
        start_step(state, event, now).1 matches StartActionView::Done(view) && view is Started,
    ensures
        ({
            let view = start_step(state, event, now).1->Done_0;
            &&& event == StartEventView::Found(FoundView::Answered(view->reply))
            &&& view->spawned == state is Polling
        }),
{
}

/// What a stop did.
#[derive(Clone, Debug, PartialEq, Eq)]
pub enum Stopped {
    /// Nothing answered.
    NotRunning,
    /// The endpoint stayed busy.
    Busy,
    /// The backend exited and released the endpoint.
    Stopped(HandshakeReply),
    /// The backend agreed to exit but still held the endpoint at the deadline.
    Lingering(HandshakeReply),
    /// The server refused; the reply says why.
    Refused(HandshakeReply),
}

/// What a [`Stopped`] stands for.
pub enum StoppedView {
    /// Nothing answered.
    NotRunning,
    /// The endpoint stayed busy.
    Busy,
    /// The backend exited and released the endpoint.
    Stopped(ReplyView),
    /// The backend agreed to exit but still held the endpoint at the deadline.
    Lingering(ReplyView),
    /// The server refused; the reply says why.
    Refused(ReplyView),
}

impl DeepView for Stopped {
    type V = StoppedView;

    open spec fn deep_view(&self) -> StoppedView {
        match self {
            Stopped::NotRunning => StoppedView::NotRunning,
            Stopped::Busy => StoppedView::Busy,
            Stopped::Stopped(reply) => StoppedView::Stopped(reply.deep_view()),
            Stopped::Lingering(reply) => StoppedView::Lingering(reply.deep_view()),
            Stopped::Refused(reply) => StoppedView::Refused(reply.deep_view()),
        }
    }
}

/// The request that a stop sends.
pub fn stop_request(force: bool) -> (r: Handshake)
    ensures
        r.deep_view() == (HandshakeView {
            force,
            ..crate::handshake::bare_handshake(crate::handshake::ConnectionKind::Shutdown)
        }),
{
    if force {
        Handshake::forced_shutdown()
    } else {
        Handshake::shutdown()
    }
}

/// What a stop does next.
#[derive(Clone, Debug, PartialEq, Eq)]
pub enum StopAction {
    /// See whether a connection can be made; the backend agreed to exit by
    /// `deadline`.
    Probe {
        /// Its answer.
        reply: HandshakeReply,
        /// When the wait ends.
        deadline: u128,
    },
    /// It is over.
    Done(Stopped),
}

/// What a [`StopAction`] stands for.
pub enum StopActionView {
    /// See whether a connection can be made.
    Probe {
        /// Its answer.
        reply: ReplyView,
        /// When the wait ends.
        deadline: int,
    },
    /// It is over.
    Done(StoppedView),
}

impl DeepView for StopAction {
    type V = StopActionView;

    open spec fn deep_view(&self) -> StopActionView {
        match self {
            StopAction::Probe { reply, deadline } => StopActionView::Probe {
                reply: reply.deep_view(),
                deadline: *deadline as int,
            },
            StopAction::Done(stopped) => StopActionView::Done(stopped.deep_view()),
        }
    }
}

/// What follows the answer to a stop's request.
pub open spec fn stop_answered(found: FoundView, now: Instant) -> StopActionView {
    match found {
        FoundView::Absent => StopActionView::Done(StoppedView::NotRunning),
        FoundView::Busy => StopActionView::Done(StoppedView::Busy),
        FoundView::Answered(reply) => if reply.refusal is Some {
            StopActionView::Done(StoppedView::Refused(reply))
        } else {
            StopActionView::Probe { reply, deadline: now + STOP_WAIT }
        },
    }
}

/// What follows a probe of the endpoint: it is released once no connection can
/// be made.
pub open spec fn stop_probed(
    reply: ReplyView,
    deadline: int,
    reached: bool,
    now: Instant,
) -> StopActionView {
    if !reached {
        StopActionView::Done(StoppedView::Stopped(reply))
    } else if now < deadline {
        StopActionView::Probe { reply, deadline }
    } else {
        StopActionView::Done(StoppedView::Lingering(reply))
    }
}

/// What follows the answer to a stop's request.
pub fn stop(found: Found, now: Instant) -> (r: StopAction)
    ensures
        r.deep_view() == stop_answered(found.deep_view(), now),
{
    match found {
        Found::Absent => StopAction::Done(Stopped::NotRunning),
        Found::Busy => StopAction::Done(Stopped::Busy),
        Found::Answered(reply) => {
            if reply.refusal.is_some() {
                StopAction::Done(Stopped::Refused(reply))
            } else {
                StopAction::Probe { reply, deadline: now as u128 + STOP_WAIT as u128 }
            }
        },
    }
}

/// What follows a probe of the endpoint, after a pause where it was reached.
pub fn stop_after_probe(reply: HandshakeReply, deadline: u128, reached: bool, now: Instant) -> (r:
    StopAction)
    ensures
        r.deep_view() == stop_probed(reply.deep_view(), deadline as int, reached, now),
{
    if !reached {
        StopAction::Done(Stopped::Stopped(reply))
    } else if (now as u128) < deadline {
        StopAction::Probe { reply, deadline }
    } else {
        StopAction::Done(Stopped::Lingering(reply))
    }
}

} // verus!
