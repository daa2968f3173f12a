//! Executing an ordered, reversible list of file-system steps.
//!
//! What to do next is a function of what has come of everything so far; the
//! caller does it and adds what came of it to the history.

use crate::error::{Error, ErrorView};
use vstd::prelude::*;
use vstd::string::*;

verus! {

/// How many times a rename is attempted before the step is called failed.
pub const RENAME_ATTEMPTS: usize = 3;

/// Pause between rename attempts, in milliseconds.
pub const RENAME_RETRY_DELAY_MS: u64 = 50;

/// One reversible file-system change, in the order it must be performed.
#[derive(Clone, Debug, PartialEq, Eq)]
pub enum Step {
    /// Replace a file's whole content.
    Write {
        /// Absolute path to write.
        path: String,
        /// Content to write.
        content: String,
        /// Content before this step, or `None` when the file does not exist
        /// yet, in which case rollback removes it.
        previous: Option<String>,
    },
    /// Move a file or directory. The destination must not exist.
    Move {
        /// Current path.
        from: String,
        /// Path to move it to.
        to: String,
    },
    /// Move a path aside so a later failure can put it back, and so a
    /// successful run can remove it without ever having held its contents.
    Trash {
        /// Path being removed.
        path: String,
        /// Sibling path it is parked at until the run finishes.
        trash: String,
    },
}

/// What a [`Step`] stands for.
pub enum StepView {
    /// Replace a file's whole content.
    Write {
        /// Absolute path to write.
        path: Seq<char>,
        /// Content to write.
        content: Seq<char>,
        /// Content before this step.
        previous: Option<Seq<char>>,
    },
    /// Move a file or directory.
    Move {
        /// Current path.
        from: Seq<char>,
        /// Path to move it to.
        to: Seq<char>,
    },
    /// Move a path aside.
    Trash {
        /// Path being removed.
        path: Seq<char>,
        /// Sibling path it is parked at until the run finishes.
        trash: Seq<char>,
    },
}

impl DeepView for Step {
    type V = StepView;

    open spec fn deep_view(&self) -> StepView {
        match self {
            Step::Write { path, content, previous } => StepView::Write {
                path: path@,
                content: content@,
                previous: previous.deep_view(),
            },
            Step::Move { from, to } => StepView::Move { from: from@, to: to@ },
            Step::Trash { path, trash } => StepView::Trash { path: path@, trash: trash@ },
        }
    }
}

/// What came of one action.
#[derive(Clone, Debug, PartialEq, Eq)]
pub enum Reply {
    /// It was done.
    Done,
    /// It failed, with these words.
    Failed(String),
}

/// What a [`Reply`] stands for.
pub enum ReplyView {
    /// It was done.
    Done,
    /// It failed, with these words.
    Failed(Seq<char>),
}

impl DeepView for Reply {
    type V = ReplyView;

    open spec fn deep_view(&self) -> ReplyView {
        match self {
            Reply::Done => ReplyView::Done,
            Reply::Failed(e) => ReplyView::Failed(e@),
        }
    }
}

/// One thing to do to the file system.
#[derive(Clone, Debug, PartialEq, Eq)]
pub enum FileAction {
    /// Write a file.
    Write {
        /// Its path.
        path: String,
        /// Its content.
        content: String,
    },
    /// Give one file the permissions of another, as far as that can be done.
    CopyPermissions {
        /// The file that has them.
        from: String,
        /// The file that gets them.
        to: String,
    },
    /// Look whether something is at a path, a dangling link included.
    Probe {
        /// The path.
        path: String,
    },
    /// Rename a file.
    Rename {
        /// Its path.
        from: String,
        /// Its path afterwards.
        to: String,
        /// Whether to pause first, because it failed a moment ago.
        pause: bool,
    },
    /// Remove a file.
    Remove {
        /// Its path.
        path: String,
    },
}

/// What a [`FileAction`] stands for.
pub enum ActionView {
    /// Write a file.
    Write {
        /// Its path.
        path: Seq<char>,
        /// Its content.
        content: Seq<char>,
    },
    /// Give one file the permissions of another, as far as that can be done.
    CopyPermissions {
        /// The file that has them.
        from: Seq<char>,
        /// The file that gets them.
        to: Seq<char>,
    },
    /// Look whether something is at a path, a dangling link included.
    Probe {
        /// The path.
        path: Seq<char>,
    },
    /// Rename a file.
    Rename {
        /// Its path.
        from: Seq<char>,
        /// Its path afterwards.
        to: Seq<char>,
        /// Whether to pause first, because it failed a moment ago.
        pause: bool,
    },
    /// Remove a file.
    Remove {
        /// Its path.
        path: Seq<char>,
    },
}

impl DeepView for FileAction {
    type V = ActionView;

    open spec fn deep_view(&self) -> ActionView {
        match self {
            FileAction::Write { path, content } => ActionView::Write {
                path: path@,
                content: content@,
            },
            FileAction::CopyPermissions { from, to } => ActionView::CopyPermissions {
                from: from@,
                to: to@,
            },
            FileAction::Probe { path } => ActionView::Probe { path: path@ },
            FileAction::Rename { from, to, pause } => ActionView::Rename {
                from: from@,
                to: to@,
                pause: *pause,
            },
            FileAction::Remove { path } => ActionView::Remove { path: path@ },
        }
    }
}

/// Where a step stands.
#[derive(Clone, Debug, PartialEq, Eq)]
pub enum Progress {
    /// This is to be done next.
    Act(FileAction),
    /// The step is over.
    Over(Reply),
}

/// What a [`Progress`] stands for.
pub enum ProgressView {
    /// This is to be done next.
    Act(ActionView),
    /// The step is over.
    Over(ReplyView),
}

impl DeepView for Progress {
    type V = ProgressView;

    open spec fn deep_view(&self) -> ProgressView {
        match self {
            Progress::Act(a) => ProgressView::Act(a.deep_view()),
            Progress::Over(r) => ProgressView::Over(r.deep_view()),
        }
    }
}

/// Where the temporary file of a write goes.
#[derive(Clone, Debug, PartialEq, Eq)]
pub enum TempPlace {
    /// The target has no parent directory.
    NoParent,
    /// The target has no file name.
    NoFileName,
    /// At this path, beside the target.
    At(String),
}

/// What a [`TempPlace`] stands for.
pub enum PlaceView {
    /// The target has no parent directory.
    NoParent,
    /// The target has no file name.
    NoFileName,
    /// At this path, beside the target.
    At(Seq<char>),
}

impl DeepView for TempPlace {
    type V = PlaceView;

    open spec fn deep_view(&self) -> PlaceView {
        match self {
            TempPlace::NoParent => PlaceView::NoParent,
            TempPlace::NoFileName => PlaceView::NoFileName,
            TempPlace::At(path) => PlaceView::At(path@),
        }
    }
}

/// The name of the temporary file beside a file of this name.
pub open spec fn temp_name_of(file_name: Seq<char>) -> Seq<char> {
    "."@ + file_name + ".mcpls-tmp"@
}

/// A temporary file is hidden, is never the file itself, and is that of one file
/// alone.
pub proof fn law_a_temporary_file_belongs_to_one_file(a: Seq<char>, b: Seq<char>)
    ensures
        temp_name_of(a)[0] == '.',
        temp_name_of(a).subrange(1, 1 + a.len() as int) == a,
        temp_name_of(a) != a,
        temp_name_of(a) == temp_name_of(b) ==> a == b,
{
    reveal_strlit(".");
    reveal_strlit(".mcpls-tmp");
    assert(temp_name_of(a).subrange(1, 1 + a.len() as int) =~= a);
    assert(temp_name_of(b).subrange(1, 1 + b.len() as int) =~= b);
    assert(temp_name_of(a).len() == a.len() + 11);
    assert(temp_name_of(b).len() == b.len() + 11);
}

/// The name of the temporary file for a file of this name.
pub fn temp_name(file_name: &str) -> (r: String)
    ensures
        r@ == "."@ + file_name@ + ".mcpls-tmp"@,
        r@ == temp_name_of(file_name@),
{
    let mut r = ".".to_owned();
    r.append(file_name);
    r.append(".mcpls-tmp");
    r
}

/// The words of a failure.
pub open spec fn words(reply: ReplyView) -> Seq<char> {
    match reply {
        ReplyView::Done => Seq::empty(),
        ReplyView::Failed(e) => e,
    }
}

/// Where a rename stands that has been answered `replies`: over with the first
/// success, or with the last of the attempts.
pub open spec fn rename_progress(
    from: Seq<char>,
    to: Seq<char>,
    replies: Seq<ReplyView>,
) -> ProgressView {
    if replies.len() > 0 && replies.last() is Done {
        ProgressView::Over(ReplyView::Done)
    } else if replies.len() >= RENAME_ATTEMPTS {
        ProgressView::Over(replies.last())
    } else {
        ProgressView::Act(ActionView::Rename { from, to, pause: replies.len() > 0 })
    }
}

/// A failure in other words.
pub open spec fn reworded(progress: ProgressView, prefix: Seq<char>) -> ProgressView {
    match progress {
        ProgressView::Over(ReplyView::Failed(e)) => ProgressView::Over(
            ReplyView::Failed(prefix + e),
        ),
        _ => progress,
    }
}

/// Where a write stands that goes through a temporary file and a rename over
/// the target: the temporary file is written, gets the target's permissions,
/// and is renamed; it is removed where it cannot be renamed.
pub open spec fn write_progress(
    path: Seq<char>,
    content: Seq<char>,
    place: PlaceView,
    replies: Seq<ReplyView>,
) -> ProgressView {
    match place {
        PlaceView::NoParent => ProgressView::Over(
            ReplyView::Failed(path + " has no parent directory"@),
        ),
        PlaceView::NoFileName => ProgressView::Over(ReplyView::Failed(path + " has no file name"@)),
        PlaceView::At(temp) => {
            if replies.len() == 0 {
                ProgressView::Act(ActionView::Write { path: temp, content })
            } else if replies[0] is Failed {
                ProgressView::Over(
                    ReplyView::Failed("writing "@ + temp + ": "@ + words(replies[0])),
                )
            } else if replies.len() == 1 {
                ProgressView::Act(ActionView::CopyPermissions { from: path, to: temp })
            } else {
                let renames = replies.skip(2);
                if renames.len() > RENAME_ATTEMPTS {
                    ProgressView::Over(
                        ReplyView::Failed(
                            "renaming onto "@ + path + ": "@ + words(
                                renames[RENAME_ATTEMPTS - 1],
                            ),
                        ),
                    )
                } else {
                    match rename_progress(temp, path, renames) {
                        ProgressView::Over(ReplyView::Failed(_)) => ProgressView::Act(
                            ActionView::Remove { path: temp },
                        ),
                        other => other,
                    }
                }
            }
        },
    }
}

/// Where a step stands whose actions have been answered `replies`.
pub open spec fn step_progress(
    step: StepView,
    place: PlaceView,
    replies: Seq<ReplyView>,
) -> ProgressView {
    match step {
        StepView::Write { path, content, .. } => write_progress(path, content, place, replies),
        StepView::Move { from, to } => {
            if replies.len() == 0 {
                ProgressView::Act(ActionView::Probe { path: to })
            } else if replies[0] is Done {
                ProgressView::Over(
                    ReplyView::Failed(
                        to + " already exists, so "@ + from + " cannot be moved onto it"@,
                    ),
                )
            } else {
                reworded(
                    rename_progress(from, to, replies.skip(1)),
                    "moving "@ + from + " to "@ + to + ": "@,
                )
            }
        },
        StepView::Trash { path, trash } => reworded(
            rename_progress(path, trash, replies),
            "moving "@ + path + " aside to "@ + trash + ": "@,
        ),
    }
}

/// Where the reversal of a step stands whose actions have been answered
/// `replies`.
pub open spec fn reversal_progress(
    step: StepView,
    place: PlaceView,
    replies: Seq<ReplyView>,
) -> ProgressView {
    match step {
        StepView::Write { path, previous: Some(original), .. } => write_progress(
            path,
            original,
            place,
            replies,
        ),
        StepView::Write { path, previous: None, .. } => {
            if replies.len() == 0 {
                ProgressView::Act(ActionView::Remove { path })
            } else {
                reworded(ProgressView::Over(replies[0]), "removing "@ + path + ": "@)
            }
        },
        StepView::Move { from, to } => rename_progress(to, from, replies),
        StepView::Trash { path, trash } => rename_progress(trash, path, replies),
    }
}

impl Reply {
    fn dup(&self) -> (r: Self)
        ensures
            r.deep_view() == self.deep_view(),
    {
        match self {
            Reply::Done => Reply::Done,
            Reply::Failed(e) => Reply::Failed(e.clone()),
        }
    }
}

/// Where a rename stands, given the replies from `start` on.
fn rename_next(from: &String, to: &String, replies: &Vec<Reply>, start: usize) -> (r: Progress)
    requires
        start <= replies.len(),
    ensures
        r.deep_view() == rename_progress(from@, to@, replies.deep_view().skip(start as int)),
{
    let count: usize = replies.len() - start;
    if count > 0 {
        assert(replies.deep_view().skip(start as int).last() == replies[replies.len()
            - 1].deep_view());
        let last = replies[replies.len() - 1].dup();
        if matches!(last, Reply::Done) || count >= RENAME_ATTEMPTS {
            return Progress::Over(last);
        }
    }
    Progress::Act(FileAction::Rename { from: from.clone(), to: to.clone(), pause: count > 0 })
}

fn reword(progress: Progress, prefix: String) -> (r: Progress)
    ensures
        r.deep_view() == reworded(progress.deep_view(), prefix@),
{
    match progress {
        Progress::Over(Reply::Failed(e)) => {
            let mut m = prefix;
            m.append(e.as_str());
            Progress::Over(Reply::Failed(m))
        },
        other => other,
    }
}

/// Write `content` to `path` through a temp file in the same directory,
/// renamed over the target, so the file never holds a partial write.
pub fn write_atomically(
    path: &String,
    content: &String,
    place: &TempPlace,
    replies: &Vec<Reply>,
) -> (r: Progress)
    ensures
        r.deep_view() == write_progress(path@, content@, place.deep_view(), replies.deep_view()),
{
    let temp = match place {
        TempPlace::NoParent => {
            let mut m = path.clone();
            m.append(" has no parent directory");
            return Progress::Over(Reply::Failed(m));
        },
        TempPlace::NoFileName => {
            let mut m = path.clone();
            m.append(" has no file name");
            return Progress::Over(Reply::Failed(m));
        },
        TempPlace::At(temp) => temp,
    };
    if replies.len() == 0 {
        return Progress::Act(FileAction::Write { path: temp.clone(), content: content.clone() });
    }
    assert(replies.deep_view()[0] == replies[0].deep_view());
    if let Reply::Failed(e) = &replies[0] {
        let mut m = "writing ".to_owned();
        m.append(temp.as_str());
        m.append(": ");
        m.append(e.as_str());
        return Progress::Over(Reply::Failed(m));
    }
    if replies.len() == 1 {
        return Progress::Act(FileAction::CopyPermissions { from: path.clone(), to: temp.clone() });
    }
    if replies.len() - 2 > RENAME_ATTEMPTS {
        assert(replies.deep_view().skip(2)[RENAME_ATTEMPTS - 1] == replies[RENAME_ATTEMPTS
            + 1].deep_view());
        let mut m = "renaming onto ".to_owned();
        m.append(path.as_str());
        m.append(": ");
        match &replies[RENAME_ATTEMPTS + 1] {
            Reply::Failed(e) => {
                m.append(e.as_str());
            },
            Reply::Done => {
                assert(m@ + Seq::<char>::empty() =~= m@);
            },
        }
        return Progress::Over(Reply::Failed(m));
    }
    match rename_next(temp, path, replies, 2) {
        Progress::Over(Reply::Failed(_)) => Progress::Act(
            FileAction::Remove { path: temp.clone() },
        ),
        other => other,
    }
}

/// What to do next to perform `step`, whose actions so far were answered
/// `replies`.
pub fn perform(step: &Step, place: &TempPlace, replies: &Vec<Reply>) -> (r: Progress)
    ensures
        r.deep_view() == step_progress(step.deep_view(), place.deep_view(), replies.deep_view()),
{
    match step {
        Step::Write { path, content, .. } => write_atomically(path, content, place, replies),
        Step::Move { from, to } => {
            if replies.len() == 0 {
                return Progress::Act(FileAction::Probe { path: to.clone() });
            }
            assert(replies.deep_view()[0] == replies[0].deep_view());
            if let Reply::Done = &replies[0] {
                let mut m = to.clone();
                m.append(" already exists, so ");
                m.append(from.as_str());
                m.append(" cannot be moved onto it");
                return Progress::Over(Reply::Failed(m));
            }
            let mut m = "moving ".to_owned();
            m.append(from.as_str());
            m.append(" to ");
            m.append(to.as_str());
            m.append(": ");
            reword(rename_next(from, to, replies, 1), m)
        },
        Step::Trash { path, trash } => {
            let mut m = "moving ".to_owned();
            m.append(path.as_str());
            m.append(" aside to ");
            m.append(trash.as_str());
            m.append(": ");
            assert(replies.deep_view().skip(0) =~= replies.deep_view());
            reword(rename_next(path, trash, replies, 0), m)
        },
    }
}

/// What to do next to reverse `step`, whose reversing actions so far were
/// answered `replies`.
pub fn reverse(step: &Step, place: &TempPlace, replies: &Vec<Reply>) -> (r: Progress)
    ensures
        r.deep_view() == reversal_progress(
            step.deep_view(),
            place.deep_view(),
            replies.deep_view(),
        ),
{
    assert(replies.deep_view().skip(0) =~= replies.deep_view());
    match step {
        Step::Write { path, previous: Some(original), .. } => write_atomically(
            path,
            original,
            place,
            replies,
        ),
        Step::Write { path, previous: None, .. } => {
            if replies.len() == 0 {
                return Progress::Act(FileAction::Remove { path: path.clone() });
            }
            assert(replies.deep_view()[0] == replies[0].deep_view());
            let mut m = "removing ".to_owned();
            m.append(path.as_str());
            m.append(": ");
            reword(Progress::Over(replies[0].dup()), m)
        },
        Step::Move { from, to } => rename_next(to, from, replies, 0),
        Step::Trash { path, trash } => rename_next(trash, path, replies, 0),
    }
}

/// What a rollback has come to.
pub struct Rollback {
    /// Files that still hold what this run wrote.
    pub written: Seq<Seq<char>>,
    /// Files that were put back.
    pub restored: Seq<Seq<char>>,
    /// Files that could not be put back, and where they are.
    pub unrecovered: Seq<Seq<char>>,
}

/// Where a file is that could not be moved back.
pub open spec fn stranded_message(file: Seq<char>, at: Seq<char>, e: Seq<char>) -> Seq<char> {
    file + " is at "@ + at + " ("@ + e + ")"@
}

/// One reversal more.
pub open spec fn rollback_step(r: Rollback, step: StepView, reply: ReplyView) -> Rollback {
    match step {
        StepView::Write { path, .. } => match reply {
            ReplyView::Done => Rollback { restored: r.restored.push(path), ..r },
            ReplyView::Failed(_) => Rollback { written: r.written.push(path), ..r },
        },
        StepView::Move { from, to } => match reply {
            ReplyView::Done => Rollback { restored: r.restored.push(from), ..r },
            ReplyView::Failed(e) => Rollback {
                unrecovered: r.unrecovered.push(stranded_message(from, to, e)),
                ..r
            },
        },
        StepView::Trash { path, trash } => match reply {
            ReplyView::Done => Rollback { restored: r.restored.push(path), ..r },
            ReplyView::Failed(e) => Rollback {
                unrecovered: r.unrecovered.push(stranded_message(path, trash, e)),
                ..r
            },
        },
    }
}

/// What the rollback of `completed` has come to after its last `n` steps were
/// reversed, latest first, with `replies`.
pub open spec fn rolled_back(
    completed: Seq<StepView>,
    replies: Seq<ReplyView>,
    n: nat,
) -> Rollback
    decreases n,
{
    if n == 0 {
        Rollback { written: Seq::empty(), restored: Seq::empty(), unrecovered: Seq::empty() }
    } else {
        rollback_step(
            rolled_back(completed, replies, (n - 1) as nat),
            completed[completed.len() - n],
            replies[n - 1],
        )
    }
}

/// The error for a run of which `completed` was rolled back with `replies`.
pub open spec fn rollback_error(
    completed: Seq<StepView>,
    replies: Seq<ReplyView>,
    reason: Seq<char>,
) -> ErrorView {
    let r = rolled_back(completed, replies, completed.len());
    ErrorView::ApplyPartiallyFailed {
        written: r.written,
        restored: r.restored,
        unrecovered: r.unrecovered,
        reason,
    }
}

/// What a run does next.
#[derive(Clone, Debug, PartialEq, Eq)]
pub enum RunNext {
    /// Perform the step at this index.
    Perform(usize),
    /// Reverse the step at this index.
    Reverse(usize),
    /// Every step was performed: remove what lies in the trash.
    Purge,
    /// A step failed, and what was reversed is reversed.
    Failed(Error),
}

/// What a [`RunNext`] stands for.
pub enum RunView {
    /// Perform the step at this index.
    Perform(int),
    /// Reverse the step at this index.
    Reverse(int),
    /// Every step was performed: remove what lies in the trash.
    Purge,
    /// A step failed, and what was reversed is reversed.
    Failed(ErrorView),
}

impl DeepView for RunNext {
    type V = RunView;

    open spec fn deep_view(&self) -> RunView {
        match self {
            RunNext::Perform(i) => RunView::Perform(*i as int),
            RunNext::Reverse(i) => RunView::Reverse(*i as int),
            RunNext::Purge => RunView::Purge,
            RunNext::Failed(e) => RunView::Failed(e.deep_view()),
        }
    }
}

/// What a run does next of which the first steps were performed with
/// `performed` and then reversed, latest first, with `reversed`: every step in
/// order, and from the first failure on every completed step in reverse order.
pub open spec fn run_next(
    steps: Seq<StepView>,
    performed: Seq<ReplyView>,
    reversed: Seq<ReplyView>,
) -> RunView {
    if performed.len() > 0 && performed.last() is Failed {
        let completed = steps.take(performed.len() - 1);
        if reversed.len() < completed.len() {
            RunView::Reverse(completed.len() - 1 - reversed.len())
        } else {
            RunView::Failed(rollback_error(completed, reversed, words(performed.last())))
        }
    } else if performed.len() < steps.len() {
        RunView::Perform(performed.len() as int)
    } else {
        RunView::Purge
    }
}

fn stranded(file: &String, at: &String, e: &String) -> (r: String)
    ensures
        r@ == stranded_message(file@, at@, e@),
{
    let mut r = file.clone();
    r.append(" is at ");
    r.append(at.as_str());
    r.append(" (");
    r.append(e.as_str());
    r.append(")");
    r
}

fn put(list: &mut Vec<String>, item: String)
    ensures
        final(list).deep_view() == old(list).deep_view().push(item@),
{
    let ghost before = list.deep_view();
    let ghost word = item@;
    list.push(item);
    assert(list.deep_view() =~= before.push(word));
}

/// The error for a run whose first `completed` steps were reversed, latest
/// first, with `replies`.
pub fn roll_back(steps: &Vec<Step>, completed: usize, replies: &Vec<Reply>, reason: String) -> (r:
    Error)
    requires
        completed <= steps.len(),
        completed <= replies.len(),
    ensures
        r.deep_view() == rollback_error(
            steps.deep_view().take(completed as int),
            replies.deep_view(),
            reason@,
        ),
{
    let ghost done = steps.deep_view().take(completed as int);
    let mut written: Vec<String> = Vec::new();
    let mut restored: Vec<String> = Vec::new();
    let mut unrecovered: Vec<String> = Vec::new();
    proof {
        assert(written.deep_view() =~= Seq::<Seq<char>>::empty());
        assert(restored.deep_view() =~= Seq::<Seq<char>>::empty());
        assert(unrecovered.deep_view() =~= Seq::<Seq<char>>::empty());
    }
    let mut n: usize = 0;
    while n < completed
        invariant
            n <= completed,
            completed <= steps.len(),
            completed <= replies.len(),
            done == steps.deep_view().take(completed as int),
            rolled_back(done, replies.deep_view(), n as nat) == (Rollback {
                written: written.deep_view(),
                restored: restored.deep_view(),
                unrecovered: unrecovered.deep_view(),
            }),
        decreases completed - n,
    {
        proof {
            assert(done[done.len() - (n + 1)] == steps[completed - 1 - n].deep_view());
            assert(replies.deep_view()[n as int] == replies[n as int].deep_view());
        }
        match (&steps[completed - 1 - n], &replies[n]) {
            (Step::Write { path, .. }, Reply::Done) => put(&mut restored, path.clone()),
            (Step::Write { path, .. }, Reply::Failed(_)) => put(&mut written, path.clone()),
            (Step::Move { from, .. }, Reply::Done) => put(&mut restored, from.clone()),
            (Step::Move { from, to }, Reply::Failed(e)) => put(
                &mut unrecovered,
                stranded(from, to, e),
            ),
            (Step::Trash { path, .. }, Reply::Done) => put(&mut restored, path.clone()),
            (Step::Trash { path, trash }, Reply::Failed(e)) => put(
                &mut unrecovered,
                stranded(path, trash, e),
            ),
        }
        n = n + 1;
    }
    Error::ApplyPartiallyFailed { written, restored, unrecovered, reason }
}

/// What to do next to perform every step in order, rolling back on the first
/// failure. `performed` holds what came of each step tried so far, `reversed`
/// what came of each reversal.
pub fn execute(steps: &Vec<Step>, performed: &Vec<Reply>, reversed: &Vec<Reply>) -> (r: RunNext)
    requires
        performed.len() <= steps.len(),
    ensures
        r.deep_view() == run_next(
            steps.deep_view(),
            performed.deep_view(),
            reversed.deep_view(),
        ),
{
    if performed.len() > 0 {
        assert(performed.deep_view().last() == performed[performed.len() - 1].deep_view());
        if let Reply::Failed(reason) = &performed[performed.len() - 1] {
            let completed: usize = performed.len() - 1;
            if reversed.len() < completed {
                return RunNext::Reverse(completed - 1 - reversed.len());
            }
            return RunNext::Failed(roll_back(steps, completed, reversed, reason.clone()));
        }
    }
    if performed.len() < steps.len() {
        RunNext::Perform(performed.len())
    } else {
        RunNext::Purge
    }
}

/// The paths in the trash once every step was performed, in order.
pub open spec fn trash_of(steps: Seq<StepView>) -> Seq<Seq<char>>
    decreases steps.len(),
{
    if steps.len() == 0 {
        Seq::empty()
    } else {
        match steps.last() {
            StepView::Trash { trash, .. } => trash_of(steps.drop_last()).push(trash),
            _ => trash_of(steps.drop_last()),
        }
    }
}

/// What to remove once the whole run has succeeded.
pub fn purge_trash(steps: &Vec<Step>) -> (r: Vec<String>)
    ensures
        r.deep_view() == trash_of(steps.deep_view()),
{
    let ghost all = steps.deep_view();
    let mut r: Vec<String> = Vec::new();
    assert(r.deep_view() =~= Seq::<Seq<char>>::empty());
    let mut i: usize = 0;
    while i < steps.len()
        invariant
            i <= steps.len(),
            all == steps.deep_view(),
            r.deep_view() == trash_of(all.take(i as int)),
        decreases steps.len() - i,
    {
        proof {
            let next = all.take(i + 1);
            assert(next.drop_last() =~= all.take(i as int));
            assert(next.last() == steps[i as int].deep_view());
        }
        if let Step::Trash { trash, .. } = &steps[i] {
            put(&mut r, trash.clone());
        }
        i = i + 1;
    }
    assert(all.take(i as int) =~= all);
    r
}

/// A rename that keeps failing is tried exactly as often as it may be, with a
/// pause before every attempt but the first.
pub proof fn law_a_rename_is_tried_three_times(
    from: Seq<char>,
    to: Seq<char>,
    replies: Seq<ReplyView>,
)
    requires
        forall|i: int| 0 <= i < replies.len() ==> #[trigger] replies[i] is Failed,
    ensures
        rename_progress(from, to, replies) is Act <==> replies.len() < RENAME_ATTEMPTS,
        rename_progress(from, to, replies) is Act ==> rename_progress(from, to, replies)
            == ProgressView::Act(
            ActionView::Rename { from, to, pause: replies.len() != 0 },
        ),
{
    if replies.len() > 0 {
        assert(replies.last() is Failed);
    }
}

/// The reversals of a failed run go backwards over exactly the steps that were
/// completed, and then the run is over.
pub proof fn law_reversal_goes_backwards(
    steps: Seq<StepView>,
    performed: Seq<ReplyView>,
    reversed: Seq<ReplyView>,
)
    requires
        0 < performed.len() <= steps.len(),
        performed.last() is Failed,
    ensures
        forall|k: int|
            0 <= k < performed.len() - 1 && k <= reversed.len() ==> run_next(
                steps,
                performed,
                #[trigger] reversed.take(k),
            ) == RunView::Reverse(performed.len() - 2 - k),
        reversed.len() >= performed.len() - 1 ==> run_next(steps, performed, reversed) is Failed,
{
}

/// A failed run's error accounts for every completed step exactly once.
pub proof fn law_rollback_accounts_for_every_step(
    completed: Seq<StepView>,
    replies: Seq<ReplyView>,
    n: nat,
)
    requires
        n <= completed.len(),
        n <= replies.len(),
    ensures
        ({
            let r = rolled_back(completed, replies, n);
            r.written.len() + r.restored.len() + r.unrecovered.len() == n
        }),
    decreases n,
{
    if n > 0 {
        law_rollback_accounts_for_every_step(completed, replies, (n - 1) as nat);
    }
}

/// Where every reversal succeeds, nothing is left written and nothing is lost.
pub proof fn law_a_clean_rollback_restores_everything(
    completed: Seq<StepView>,
    replies: Seq<ReplyView>,
    n: nat,
)
    requires
        n <= completed.len(),
        n <= replies.len(),
        forall|i: int| 0 <= i < n ==> #[trigger] replies[i] is Done,
    ensures
        rolled_back(completed, replies, n).written.len() == 0,
        rolled_back(completed, replies, n).unrecovered.len() == 0,
        rolled_back(completed, replies, n).restored.len() == n,
    decreases n,
{
    if n > 0 {
        assert(replies[n - 1] is Done);
        law_a_clean_rollback_restores_everything(completed, replies, (n - 1) as nat);
    }
}

/// A write never touches its target but by the one rename over it: everything
/// else it does is to the temporary file.
pub proof fn law_a_write_reaches_its_target_by_rename_alone(
    path: Seq<char>,
    content: Seq<char>,
    temp: Seq<char>,
    replies: Seq<ReplyView>,
)
    ensures
        match write_progress(path, content, PlaceView::At(temp), replies) {
            ProgressView::Act(ActionView::Write { path: p, content: c }) => p == temp && c
                == content,
            ProgressView::Act(ActionView::CopyPermissions { from, to }) => from == path && to
                == temp,
            ProgressView::Act(ActionView::Rename { from, to, .. }) => from == temp && to == path
                && replies[0] is Done,
            ProgressView::Act(ActionView::Remove { path: p }) => p == temp,
            ProgressView::Act(ActionView::Probe { .. }) => false,
            ProgressView::Over(_) => true,
        },
{
}

} // verus!
