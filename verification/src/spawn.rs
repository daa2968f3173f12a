//! Starting a backend: the arguments it runs with, the lock that keeps two
//! starters from racing, and when a requested start goes ahead.

use crate::clock::{Duration, Instant};
use vstd::prelude::*;
use vstd::string::*;

verus! {

/// A backend log larger than this starts over when a backend is spawned.
pub const MAX_LOG_BYTES: u64 = 10_485_760;

/// How long a hook waits to learn whether a backend already answers: 200 ms.
pub const RUNNING_PROBE: Duration = 200_000_000;

/// How long a starter keeps ownership while a new backend becomes ready: 5 s.
pub const STARTUP_DEADLINE: Duration = 5_000_000_000;

/// How often a starter retries a backend that has not answered yet: 25 ms.
pub const STARTUP_RETRY: Duration = 25_000_000;

/// What a backend is started with.
#[derive(Clone, Debug, PartialEq, Eq)]
pub struct BackendLaunch {
    /// The checkout root it serves, and its working directory.
    pub root: String,
    /// An explicit configuration file, already absolute.
    pub config: Option<String>,
    /// Whether the project's configuration file is trusted.
    pub trust_project_config: bool,
    /// The log level.
    pub log_level: String,
    /// Whether logs are JSON.
    pub log_json: bool,
}

/// The command-line arguments that start a backend.
pub open spec fn launch_args(launch: BackendLaunch) -> Seq<Seq<char>> {
    (match launch.config {
        Some(config) => seq!["--config"@, config@],
        None => Seq::<Seq<char>>::empty(),
    }) + (if launch.trust_project_config {
        seq!["--trust-project-config"@]
    } else {
        Seq::<Seq<char>>::empty()
    }) + seq!["--log-level"@, launch.log_level@] + (if launch.log_json {
        seq!["--log-json"@]
    } else {
        Seq::<Seq<char>>::empty()
    }) + seq!["backend"@, "--root"@, launch.root@]
}

impl BackendLaunch {
    /// The command-line arguments that start this backend.
    pub fn args(&self) -> (r: Vec<String>)
        ensures
            r.deep_view() == launch_args(*self),
    {
        let mut args: Vec<String> = Vec::new();
        if let Some(config) = &self.config {
            args.push("--config".to_owned());
            args.push(config.clone());
        }
        if self.trust_project_config {
            args.push("--trust-project-config".to_owned());
        }
        args.push("--log-level".to_owned());
        args.push(self.log_level.clone());
        if self.log_json {
            args.push("--log-json".to_owned());
        }
        args.push("backend".to_owned());
        args.push("--root".to_owned());
        args.push(self.root.clone());
        assert(args.deep_view() =~= launch_args(*self));
        args
    }
}

/// Whether a log of this size is too large to go on with.
pub open spec fn too_large(size: Option<u64>) -> bool {
    size is Some && size->Some_0 > MAX_LOG_BYTES
}

/// A log that is not there does not start over, one that fills its limit goes on,
/// and of two logs the larger starts over where the smaller does.
pub proof fn law_only_a_large_log_starts_over(small: u64, large: u64)
    requires
        small <= large,
    ensures
        !too_large(None),
        !too_large(Some(MAX_LOG_BYTES)),
        too_large(Some((MAX_LOG_BYTES + 1) as u64)),
        too_large(Some(small)) ==> too_large(Some(large)),
{
}

/// Whether the log starts over: it is there, and too large.
pub fn log_starts_over(size: Option<u64>) -> (r: bool)
    ensures
        r == (size is Some && size->Some_0 > MAX_LOG_BYTES),
        r == too_large(size),
{
    match size {
        Some(n) => n > MAX_LOG_BYTES,
        None => false,
    }
}

/// What an attempt to take the spawn lock means.
#[derive(Clone, Copy, Debug, PartialEq, Eq, Structural)]
pub enum LockNext {
    /// It was taken.
    Held,
    /// The wait ran out.
    GiveUp,
    /// Try again after a pause.
    Retry,
}

/// What an attempt to take the lock means.
pub open spec fn lock_next(taken: bool, now: Instant, deadline: Instant) -> LockNext {
    if taken {
        LockNext::Held
    } else if now >= deadline {
        LockNext::GiveUp
    } else {
        LockNext::Retry
    }
}

/// A lock that was taken is held, however late; one that was not is tried again
/// until the deadline, and given up from then on.
pub proof fn law_a_lock_is_tried_until_the_deadline(taken: bool, now: Instant, deadline: Instant)
    ensures
        lock_next(taken, now, deadline) == LockNext::Held <==> taken,
        lock_next(taken, now, deadline) == LockNext::Retry <==> !taken && now < deadline,
{
}

/// Go on after an attempt to take the lock that was `taken` or not.
pub fn after_lock_attempt(taken: bool, now: Instant, deadline: Instant) -> (r: LockNext)
    ensures
        r == (if taken {
            LockNext::Held
        } else if now >= deadline {
            LockNext::GiveUp
        } else {
            LockNext::Retry
        }),
        r == lock_next(taken, now, deadline),
{
    if taken {
        LockNext::Held
    } else if now >= deadline {
        LockNext::GiveUp
    } else {
        LockNext::Retry
    }
}

/// Where a requested start stands.
#[derive(Clone, Copy, Debug, PartialEq, Eq, Structural)]
pub enum RequestState {
    /// The request is being looked for.
    Looking,
    /// The lock is being taken.
    Locking,
    /// The request is being read.
    Reading,
    /// A running backend is being looked for.
    Probing,
    /// The request is being removed; whether a backend runs.
    Removing {
        /// Whether a backend answered.
        running: bool,
    },
    /// A backend is being spawned.
    Spawning,
    /// The spawned backend is being waited for.
    Waiting,
    /// It is over.
    Over,
}

/// What came of the last thing that was done.
#[derive(Clone, Debug, PartialEq, Eq)]
pub enum RequestEvent {
    /// It went well: the request is there, the lock was taken, the request was
    /// read, a backend answered, and so on.
    Yes,
    /// It did not.
    No,
    /// It failed, with these words.
    Failed(String),
}

/// What a [`RequestEvent`] stands for.
pub enum RequestEventView {
    /// It went well.
    Yes,
    /// It did not.
    No,
    /// It failed, with these words.
    Failed(Seq<char>),
}

impl DeepView for RequestEvent {
    type V = RequestEventView;

    open spec fn deep_view(&self) -> RequestEventView {
        match self {
            RequestEvent::Yes => RequestEventView::Yes,
            RequestEvent::No => RequestEventView::No,
            RequestEvent::Failed(e) => RequestEventView::Failed(e@),
        }
    }
}

/// What a requested start does next.
#[derive(Clone, Debug, PartialEq, Eq)]
pub enum RequestAction {
    /// Take the lock, without waiting.
    Lock,
    /// Read the request.
    Read,
    /// See whether a backend answers.
    Probe,
    /// Remove the request.
    Remove,
    /// Spawn the backend that was asked for.
    Spawn,
    /// Wait for it to come up.
    Wait,
    /// It is over; whether a backend was spawned.
    Done(bool),
    /// It failed, with these words.
    Fail(String),
}

/// What a [`RequestAction`] stands for.
pub enum RequestActionView {
    /// Take the lock, without waiting.
    Lock,
    /// Read the request.
    Read,
    /// See whether a backend answers.
    Probe,
    /// Remove the request.
    Remove,
    /// Spawn the backend that was asked for.
    Spawn,
    /// Wait for it to come up.
    Wait,
    /// It is over; whether a backend was spawned.
    Done(bool),
    /// It failed, with these words.
    Fail(Seq<char>),
}

impl DeepView for RequestAction {
    type V = RequestActionView;

    open spec fn deep_view(&self) -> RequestActionView {
        match self {
            RequestAction::Lock => RequestActionView::Lock,
            RequestAction::Read => RequestActionView::Read,
            RequestAction::Probe => RequestActionView::Probe,
            RequestAction::Remove => RequestActionView::Remove,
            RequestAction::Spawn => RequestActionView::Spawn,
            RequestAction::Wait => RequestActionView::Wait,
            RequestAction::Done(spawned) => RequestActionView::Done(*spawned),
            RequestAction::Fail(e) => RequestActionView::Fail(e@),
        }
    }
}

/// What a requested start does next. A request is removed before anything is
/// spawned, so that it is honoured once.
pub open spec fn request_step(state: RequestState, event: RequestEventView) -> (
    RequestState,
    RequestActionView,
) {
    let nothing = (RequestState::Over, RequestActionView::Done(false));
    match state {
        RequestState::Over => nothing,
        RequestState::Looking => if event is Yes {
            (RequestState::Locking, RequestActionView::Lock)
        } else {
            nothing
        },
        RequestState::Locking => match event {
            RequestEventView::Yes => (RequestState::Reading, RequestActionView::Read),
            RequestEventView::No => nothing,
            RequestEventView::Failed(e) => (RequestState::Over, RequestActionView::Fail(e)),
        },
        RequestState::Reading => if event is Yes {
            (RequestState::Probing, RequestActionView::Probe)
        } else {
            nothing
        },
        RequestState::Probing => (
            RequestState::Removing { running: event is Yes },
            RequestActionView::Remove,
        ),
        RequestState::Removing { running } => match event {
            RequestEventView::Failed(e) => (RequestState::Over, RequestActionView::Fail(e)),
            _ => if running {
                nothing
            } else {
                (RequestState::Spawning, RequestActionView::Spawn)
            },
        },
        RequestState::Spawning => match event {
            RequestEventView::Failed(e) => (RequestState::Over, RequestActionView::Fail(e)),
            _ => (RequestState::Waiting, RequestActionView::Wait),
        },
        RequestState::Waiting => (RequestState::Over, RequestActionView::Done(true)),
    }
}

/// What a requested start does next.
pub fn start_requested(state: RequestState, event: RequestEvent) -> (r: (
    RequestState,
    RequestAction,
))
    ensures
        (r.0, r.1.deep_view()) == request_step(state, event.deep_view()),
{
    match state {
        RequestState::Over => (RequestState::Over, RequestAction::Done(false)),
        RequestState::Looking => match event {
            RequestEvent::Yes => (RequestState::Locking, RequestAction::Lock),
            _ => (RequestState::Over, RequestAction::Done(false)),
        },
        RequestState::Locking => match event {
            RequestEvent::Yes => (RequestState::Reading, RequestAction::Read),
            RequestEvent::No => (RequestState::Over, RequestAction::Done(false)),
            RequestEvent::Failed(e) => (RequestState::Over, RequestAction::Fail(e)),
        },
        RequestState::Reading => match event {
            RequestEvent::Yes => (RequestState::Probing, RequestAction::Probe),
            _ => (RequestState::Over, RequestAction::Done(false)),
        },
        RequestState::Probing => {
            let running = match event {
                RequestEvent::Yes => true,
                _ => false,
            };
            (RequestState::Removing { running }, RequestAction::Remove)
        },
        RequestState::Removing { running } => match event {
            RequestEvent::Failed(e) => (RequestState::Over, RequestAction::Fail(e)),
            _ => {
                if running {
                    (RequestState::Over, RequestAction::Done(false))
                } else {
                    (RequestState::Spawning, RequestAction::Spawn)
                }
            },
        },
        RequestState::Spawning => match event {
            RequestEvent::Failed(e) => (RequestState::Over, RequestAction::Fail(e)),
            _ => (RequestState::Waiting, RequestAction::Wait),
        },
        RequestState::Waiting => (RequestState::Over, RequestAction::Done(true)),
    }
}

/// A backend is spawned only after its request was removed, and only where
/// none answered.
pub proof fn law_a_request_is_honoured_once(state: RequestState, event: RequestEventView)
    requires
        request_step(state, event).1 is Spawn,
    ensures
        state == (RequestState::Removing { running: false }),
        !(event is Failed),
{
}

/// A request that is there is locked, read and probed for, and taken away
/// whatever the probe found; only where nothing answered is a backend spawned and
/// waited for. Where there is no request, the lock is held elsewhere or the
/// request is gone, nothing is done, and what fails is passed on.
pub proof fn law_how_a_request_goes(event: RequestEventView, running: bool)
    ensures
        event is Yes ==> {
            &&& request_step(RequestState::Looking, event) == (
                RequestState::Locking,
                RequestActionView::Lock,
            )
            &&& request_step(RequestState::Locking, event) == (
                RequestState::Reading,
                RequestActionView::Read,
            )
            &&& request_step(RequestState::Reading, event) == (
                RequestState::Probing,
                RequestActionView::Probe,
            )
        },
        event is No ==> {
            &&& request_step(RequestState::Looking, event).1 == RequestActionView::Done(false)
            &&& request_step(RequestState::Locking, event).1 == RequestActionView::Done(false)
            &&& request_step(RequestState::Reading, event).1 == RequestActionView::Done(false)
        },
        request_step(RequestState::Probing, event) == (
            (RequestState::Removing { running: event is Yes }),
            RequestActionView::Remove,
        ),
        !(event is Failed) ==> {
            &&& request_step((RequestState::Removing { running }), event).1 == if running {
                RequestActionView::Done(false)
            } else {
                RequestActionView::Spawn
            }
            &&& !running ==> request_step((RequestState::Removing { running }), event).0
                == RequestState::Spawning
            &&& request_step(RequestState::Spawning, event) == (
                RequestState::Waiting,
                RequestActionView::Wait,
            )
        },
        event matches RequestEventView::Failed(e) ==> {
            &&& request_step(RequestState::Locking, event).1 == RequestActionView::Fail(e)
            &&& request_step((RequestState::Removing { running }), event).1
                == RequestActionView::Fail(e)
            &&& request_step(RequestState::Spawning, event).1 == RequestActionView::Fail(e)
        },
        request_step(RequestState::Waiting, event).1 == RequestActionView::Done(true),
        request_step(RequestState::Over, event).1 == RequestActionView::Done(false),
{
}

/// A start that reports a spawn has spawned.
pub proof fn law_a_reported_spawn_happened(state: RequestState, event: RequestEventView)
    requires
        request_step(state, event).1 == RequestActionView::Done(true),
    ensures
        state is Waiting,
{
}

/// What to do while a spawned backend comes up.
#[derive(Clone, Copy, Debug, PartialEq, Eq, Structural)]
pub enum StartupNext {
    /// Stop waiting.
    Stop,
    /// Try to connect for `probe` at most; where that fails, pause for `retry`.
    Probe {
        /// How long to try.
        probe: Duration,
        /// How long to pause afterwards.
        retry: Duration,
    },
}

/// The smaller of two durations.
pub open spec fn shorter(a: int, b: Duration) -> Duration {
    if a < b {
        a as Duration
    } else {
        b
    }
}

/// What to do while a spawned backend comes up.
pub open spec fn startup_next(
    running: bool,
    exited: bool,
    now: Instant,
    deadline: Instant,
) -> StartupNext {
    if running || exited || now >= deadline {
        StartupNext::Stop
    } else {
        StartupNext::Probe {
            probe: shorter(deadline - now, RUNNING_PROBE),
            retry: shorter(deadline - now, STARTUP_RETRY),
        }
    }
}

/// A backend that comes up is waited for until it answers, exits or the deadline
/// is there, and neither a probe nor a pause reaches past the deadline or takes
/// longer than it may.
pub proof fn law_nothing_waits_past_the_deadline(
    running: bool,
    exited: bool,
    now: Instant,
    deadline: Instant,
)
    ensures
        startup_next(running, exited, now, deadline) is Stop <==> running || exited || now
            >= deadline,
        startup_next(running, exited, now, deadline) matches StartupNext::Probe { probe, retry } ==> {
            &&& now + probe <= deadline
            &&& now + retry <= deadline
            &&& probe <= RUNNING_PROBE
            &&& retry <= STARTUP_RETRY
            &&& deadline - now >= RUNNING_PROBE ==> probe == RUNNING_PROBE
            &&& deadline - now >= STARTUP_RETRY ==> retry == STARTUP_RETRY
        },
{
}

/// What to do while a spawned backend comes up, given whether it answered or
/// exited: nothing is waited for past the deadline.
pub fn wait_for_startup(running: bool, exited: bool, now: Instant, deadline: Instant) -> (r:
    StartupNext)
    ensures
        r == (if running || exited || now >= deadline {
            StartupNext::Stop
        } else {
            StartupNext::Probe {
                probe: shorter(deadline - now, RUNNING_PROBE),
                retry: shorter(deadline - now, STARTUP_RETRY),
            }
        }),
        r == startup_next(running, exited, now, deadline),
{
    if running || exited || now >= deadline {
        return StartupNext::Stop;
    }
    let remaining: Duration = deadline - now;
    StartupNext::Probe {
        probe: if remaining < RUNNING_PROBE {
            remaining
        } else {
            RUNNING_PROBE
        },
        retry: if remaining < STARTUP_RETRY {
            remaining
        } else {
            STARTUP_RETRY
        },
    }
}

} // verus!
