//! What a run of file-system steps leaves on the disk.
//!
//! The disk is modelled by what is at each path, none of which lies inside
//! another. A file is modelled by its content; where a directory is moved, its
//! whole tree is what is at its path.

use crate::journal;
use crate::journal::{ActionView, PlaceView, ProgressView, ReplyView, RunView, StepView};
use crate::ledger;
use vstd::prelude::*;

verus! {

/// What is at each path.
pub type Disk = Map<Seq<char>, Seq<char>>;

/// `disk` after what is at `from` was moved to `to`, over whatever was there.
pub open spec fn moved(disk: Disk, from: Seq<char>, to: Seq<char>) -> Disk {
    disk.remove(from).insert(to, disk[from])
}

/// `disk` after an action was answered. One that failed changed nothing.
pub open spec fn after_action(disk: Disk, action: ActionView, reply: ReplyView) -> Disk {
    match (action, reply) {
        (ActionView::Write { path, content }, ReplyView::Done) => disk.insert(path, content),
        (ActionView::Rename { from, to, .. }, ReplyView::Done) => moved(disk, from, to),
        (ActionView::Remove { path }, ReplyView::Done) => disk.remove(path),
        _ => disk,
    }
}

/// Whether an answer to an action is true of the disk: only what is there is
/// renamed or removed, and a path is found exactly where something is.
pub open spec fn truthful(disk: Disk, action: ActionView, reply: ReplyView) -> bool {
    match action {
        ActionView::Rename { from, .. } => reply is Done ==> disk.dom().contains(from),
        ActionView::Remove { path } => reply is Done ==> disk.dom().contains(path),
        ActionView::Probe { path } => reply is Done <==> disk.dom().contains(path),
        _ => true,
    }
}

/// Where a step, or its reversal, stands.
pub open spec fn progress(
    step: StepView,
    undo: bool,
    place: PlaceView,
    replies: Seq<ReplyView>,
) -> ProgressView {
    if undo {
        journal::reversal_progress(step, place, replies)
    } else {
        journal::step_progress(step, place, replies)
    }
}

/// `disk` after the actions of a step, or of its reversal, were answered
/// `replies`.
pub open spec fn after_replies(
    disk: Disk,
    step: StepView,
    undo: bool,
    place: PlaceView,
    replies: Seq<ReplyView>,
) -> Disk
    decreases replies.len(),
{
    if replies.len() == 0 {
        disk
    } else {
        let before = replies.drop_last();
        let then = after_replies(disk, step, undo, place, before);
        match progress(step, undo, place, before) {
            ProgressView::Act(action) => after_action(then, action, replies.last()),
            ProgressView::Over(_) => then,
        }
    }
}

/// Whether each of `replies` answers an action, and answers it truthfully.
pub open spec fn truthful_replies(
    disk: Disk,
    step: StepView,
    undo: bool,
    place: PlaceView,
    replies: Seq<ReplyView>,
) -> bool
    decreases replies.len(),
{
    if replies.len() == 0 {
        true
    } else {
        let before = replies.drop_last();
        &&& truthful_replies(disk, step, undo, place, before)
        &&& progress(step, undo, place, before) matches ProgressView::Act(action) && truthful(
            after_replies(disk, step, undo, place, before),
            action,
            replies.last(),
        )
    }
}

/// `disk` after a step.
pub open spec fn done(disk: Disk, step: StepView) -> Disk {
    match step {
        StepView::Write { path, content, .. } => disk.insert(path, content),
        StepView::Move { from, to } => moved(disk, from, to),
        StepView::Trash { path, trash } => moved(disk, path, trash),
    }
}

/// `disk` after a step was reversed.
pub open spec fn undone(disk: Disk, step: StepView) -> Disk {
    match step {
        StepView::Write { path, previous: Some(original), .. } => disk.insert(path, original),
        StepView::Write { path, previous: None, .. } => disk.remove(path),
        StepView::Move { from, to } => moved(disk, to, from),
        StepView::Trash { path, trash } => moved(disk, trash, path),
    }
}

/// Whether the disk is as a step takes it to be: what is written over is what
/// the step holds as previous, and a path is moved to a place where nothing is.
pub open spec fn fits(disk: Disk, step: StepView) -> bool {
    match step {
        StepView::Write { path, previous, .. } => ledger::lookup(disk, path) == previous,
        StepView::Move { from, to } => disk.dom().contains(from) && !disk.dom().contains(to),
        StepView::Trash { path, trash } => disk.dom().contains(path) && !disk.dom().contains(trash),
    }
}

/// Whether the temporary file of a write is a file of its own, which is not
/// there before it.
pub open spec fn temp_is_free(disk: Disk, step: StepView, place: PlaceView) -> bool {
    match (step, place) {
        (StepView::Write { path, .. }, PlaceView::At(temp)) => temp != path && !disk.dom().contains(
            temp,
        ),
        _ => true,
    }
}

/// Two disks that differ at most in a write's temporary file.
pub open spec fn same_but_temp(a: Disk, b: Disk, place: PlaceView) -> bool {
    match place {
        PlaceView::At(temp) => a.remove(temp) == b.remove(temp),
        _ => a == b,
    }
}

/// Where a write stands, and what the disk is then.
proof fn lemma_write(
    disk: Disk,
    step: StepView,
    undo: bool,
    path: Seq<char>,
    content: Seq<char>,
    temp: Seq<char>,
    replies: Seq<ReplyView>,
)
    requires
        temp != path,
        !disk.dom().contains(temp),
        forall|r: Seq<ReplyView>| #[trigger]
            progress(step, undo, PlaceView::At(temp), r) == journal::write_progress(
                path,
                content,
                PlaceView::At(temp),
                r,
            ),
        truthful_replies(disk, step, undo, PlaceView::At(temp), replies),
    ensures
        ({
            let now = after_replies(disk, step, undo, PlaceView::At(temp), replies);
            match progress(step, undo, PlaceView::At(temp), replies) {
                ProgressView::Act(ActionView::Write { .. }) => now == disk,
                ProgressView::Act(_) => now == disk.insert(temp, content),
                ProgressView::Over(ReplyView::Done) => now == disk.insert(path, content),
                ProgressView::Over(ReplyView::Failed(_)) => now.remove(temp) == disk,
            }
        }),
    decreases replies.len(),
{
    let place = PlaceView::At(temp);
    assert(disk.remove(temp) =~= disk);
    if replies.len() > 0 {
        let before = replies.drop_last();
        lemma_write(disk, step, undo, path, content, temp, before);
        let then = after_replies(disk, step, undo, place, before);
        let now = after_replies(disk, step, undo, place, replies);
        assert(progress(step, undo, place, before) == journal::write_progress(
            path,
            content,
            place,
            before,
        ));
        assert(progress(step, undo, place, replies) == journal::write_progress(
            path,
            content,
            place,
            replies,
        ));
        if before.len() >= 1 {
            assert(before[0] == replies[0]);
        }
        if before.len() >= 2 {
            assert(replies.skip(2).drop_last() =~= before.skip(2));
            assert(replies.skip(2).last() == replies.last());
        }
        assert(disk.insert(temp, content).remove(temp) =~= disk);
        assert(moved(disk.insert(temp, content), temp, path) =~= disk.insert(path, content));
    }
}

/// Where a rename stands that goes on from `start` answers, and what the disk is
/// then.
proof fn lemma_rename(
    disk: Disk,
    step: StepView,
    undo: bool,
    place: PlaceView,
    from: Seq<char>,
    to: Seq<char>,
    start: nat,
    replies: Seq<ReplyView>,
)
    requires
        start <= replies.len(),
        forall|r: Seq<ReplyView>|
            start <= r.len() && r.take(start as int) == replies.take(start as int) ==> match (
                #[trigger] progress(step, undo, place, r)
            ) {
                ProgressView::Act(action) => journal::rename_progress(
                    from,
                    to,
                    r.skip(start as int),
                ) == ProgressView::Act(action),
                ProgressView::Over(reply) => journal::rename_progress(
                    from,
                    to,
                    r.skip(start as int),
                ) matches ProgressView::Over(other) && (other is Done <==> reply is Done),
            },
        after_replies(disk, step, undo, place, replies.take(start as int)) == disk,
        truthful_replies(disk, step, undo, place, replies),
    ensures
        ({
            let now = after_replies(disk, step, undo, place, replies);
            match progress(step, undo, place, replies) {
                ProgressView::Over(ReplyView::Done) => disk.dom().contains(from) && now == moved(
                    disk,
                    from,
                    to,
                ),
                _ => now == disk,
            }
        }),
    decreases replies.len(),
{
    if replies.len() == start {
        assert(replies.take(start as int) =~= replies);
        assert(replies.skip(start as int) =~= Seq::empty());
        assert(progress(step, undo, place, replies) is Act);
    } else {
        let before = replies.drop_last();
        assert(before.take(start as int) =~= replies.take(start as int));
        lemma_rename(disk, step, undo, place, from, to, start, before);
        assert(replies.skip(start as int).drop_last() =~= before.skip(start as int));
        assert(replies.skip(start as int).last() == replies.last());
        assert(progress(step, undo, place, before) is Act);
    }
}

/// A step that was performed has its effect, and one that failed has none, but
/// for a temporary file that could not be removed.
pub proof fn law_a_step_has_its_effect(
    disk: Disk,
    step: StepView,
    place: PlaceView,
    replies: Seq<ReplyView>,
)
    requires
        temp_is_free(disk, step, place),
        truthful_replies(disk, step, false, place, replies),
    ensures
        ({
            let now = after_replies(disk, step, false, place, replies);
            &&& journal::step_progress(step, place, replies) == ProgressView::Over(ReplyView::Done)
                ==> now == done(disk, step)
            &&& journal::step_progress(step, place, replies) matches ProgressView::Over(
                ReplyView::Failed(_),
            ) ==> same_but_temp(now, disk, place)
        }),
{
    match step {
        StepView::Write { path, content, .. } => {
            match place {
                PlaceView::At(temp) => {
                    lemma_write(disk, step, false, path, content, temp, replies);
                    assert(disk.remove(temp) =~= disk);
                },
                _ => {
                    if replies.len() > 0 {
                        assert(progress(step, false, place, replies.drop_last()) is Over);
                    }
                },
            }
        },
        StepView::Move { from, to } => {
            if replies.len() > 0 {
                let first = replies.take(1);
                assert(first.drop_last() =~= Seq::empty());
                assert(after_replies(disk, step, false, place, Seq::empty()) == disk);
                assert(after_replies(disk, step, false, place, first) == disk);
                if replies[0] is Done {
                    lemma_probe(disk, step, place, replies);
                } else {
                    assert forall|r: Seq<ReplyView>|
                        1 <= r.len() && r.take(1) == replies.take(1) implies match (
                        #[trigger] progress(step, false, place, r)) {
                        ProgressView::Act(action) => journal::rename_progress(from, to, r.skip(1))
                            == ProgressView::Act(action),
                        ProgressView::Over(reply) => journal::rename_progress(from, to, r.skip(1))
                            matches ProgressView::Over(other) && (other is Done <==> reply is Done),
                    } by {
                        assert(r.take(1)[0] == replies.take(1)[0]);
                    }
                    lemma_rename(disk, step, false, place, from, to, 1, replies);
                }
            }
        },
        StepView::Trash { path, trash } => {
            assert(replies.take(0) =~= Seq::empty());
            assert forall|r: Seq<ReplyView>| 0 <= r.len() && r.take(0) == replies.take(0) implies match (
            #[trigger] progress(step, false, place, r)) {
                ProgressView::Act(action) => journal::rename_progress(path, trash, r.skip(0))
                    == ProgressView::Act(action),
                ProgressView::Over(reply) => journal::rename_progress(path, trash, r.skip(0))
                    matches ProgressView::Over(other) && (other is Done <==> reply is Done),
            } by {
                assert(r.skip(0) =~= r);
            }
            lemma_rename(disk, step, false, place, path, trash, 0, replies);
        },
    }
}

/// A move whose target is found is over with that.
proof fn lemma_probe(disk: Disk, step: StepView, place: PlaceView, replies: Seq<ReplyView>)
    requires
        step is Move,
        replies.len() > 0,
        replies[0] is Done,
        truthful_replies(disk, step, false, place, replies),
    ensures
        after_replies(disk, step, false, place, replies) == disk,
{
    if replies.len() > 1 {
        let before = replies.drop_last();
        assert(before[0] == replies[0]);
        assert(progress(step, false, place, before) is Over);
    } else {
        assert(replies.drop_last() =~= Seq::empty());
    }
}

/// A step that was reversed is undone, and where the reversal failed nothing has
/// changed, but for a temporary file that could not be removed.
pub proof fn law_a_reversal_has_its_effect(
    disk: Disk,
    step: StepView,
    place: PlaceView,
    replies: Seq<ReplyView>,
)
    requires
        temp_is_free(disk, step, place),
        truthful_replies(disk, step, true, place, replies),
    ensures
        ({
            let now = after_replies(disk, step, true, place, replies);
            &&& journal::reversal_progress(step, place, replies) == ProgressView::Over(
                ReplyView::Done,
            ) ==> now == undone(disk, step)
            &&& journal::reversal_progress(step, place, replies) matches ProgressView::Over(
                ReplyView::Failed(_),
            ) ==> same_but_temp(now, disk, place)
        }),
{
    match step {
        StepView::Write { path, previous: Some(original), .. } => {
            match place {
                PlaceView::At(temp) => {
                    lemma_write(disk, step, true, path, original, temp, replies);
                    assert(disk.remove(temp) =~= disk);
                },
                _ => {
                    if replies.len() > 0 {
                        assert(progress(step, true, place, replies.drop_last()) is Over);
                    }
                },
            }
        },
        StepView::Write { path, previous: None, .. } => {
            if replies.len() > 0 {
                let before = replies.drop_last();
                if before.len() > 0 {
                    assert(progress(step, true, place, before) is Over);
                } else {
                    assert(before =~= Seq::empty());
                }
            }
        },
        StepView::Move { from, to } => {
            assert(replies.take(0) =~= Seq::empty());
            assert forall|r: Seq<ReplyView>| 0 <= r.len() && r.take(0) == replies.take(0) implies match (
            #[trigger] progress(step, true, place, r)) {
                ProgressView::Act(action) => journal::rename_progress(to, from, r.skip(0))
                    == ProgressView::Act(action),
                ProgressView::Over(reply) => journal::rename_progress(to, from, r.skip(0))
                    matches ProgressView::Over(other) && (other is Done <==> reply is Done),
            } by {
                assert(r.skip(0) =~= r);
            }
            lemma_rename(disk, step, true, place, to, from, 0, replies);
        },
        StepView::Trash { path, trash } => {
            assert(replies.take(0) =~= Seq::empty());
            assert forall|r: Seq<ReplyView>| 0 <= r.len() && r.take(0) == replies.take(0) implies match (
            #[trigger] progress(step, true, place, r)) {
                ProgressView::Act(action) => journal::rename_progress(trash, path, r.skip(0))
                    == ProgressView::Act(action),
                ProgressView::Over(reply) => journal::rename_progress(trash, path, r.skip(0))
                    matches ProgressView::Over(other) && (other is Done <==> reply is Done),
            } by {
                assert(r.skip(0) =~= r);
            }
            lemma_rename(disk, step, true, place, trash, path, 0, replies);
        },
    }
}

/// `disk` after `steps`, in order.
pub open spec fn all_done(disk: Disk, steps: Seq<StepView>) -> Disk
    decreases steps.len(),
{
    if steps.len() == 0 {
        disk
    } else {
        done(all_done(disk, steps.drop_last()), steps.last())
    }
}

/// Whether each of `steps` finds the disk as it takes it to be.
pub open spec fn all_fit(disk: Disk, steps: Seq<StepView>) -> bool
    decreases steps.len(),
{
    steps.len() == 0 || (all_fit(disk, steps.drop_last()) && fits(
        all_done(disk, steps.drop_last()),
        steps.last(),
    ))
}

/// `disk` after the last `n` of `completed` were reversed, latest first, with
/// `replies`. A reversal that failed changed nothing.
pub open spec fn all_reversed(
    disk: Disk,
    completed: Seq<StepView>,
    replies: Seq<ReplyView>,
    n: nat,
) -> Disk
    decreases n,
{
    if n == 0 {
        disk
    } else {
        let then = all_reversed(disk, completed, replies, (n - 1) as nat);
        if replies[n - 1] is Done {
            undone(then, completed[completed.len() - n])
        } else {
            then
        }
    }
}

/// Reversing a step right after it puts the disk back.
pub proof fn law_undoing_takes_a_step_back(disk: Disk, step: StepView)
    requires
        fits(disk, step),
    ensures
        undone(done(disk, step), step) == disk,
{
    assert(undone(done(disk, step), step) =~= disk);
}

/// Where every reversal succeeds, the disk is what it was before the run,
/// whatever was done in it.
pub proof fn law_a_clean_rollback_puts_the_disk_back(
    disk: Disk,
    completed: Seq<StepView>,
    replies: Seq<ReplyView>,
    n: nat,
)
    requires
        all_fit(disk, completed),
        n <= completed.len(),
        n <= replies.len(),
        forall|i: int| 0 <= i < n ==> #[trigger] replies[i] is Done,
    ensures
        all_reversed(all_done(disk, completed), completed, replies, n) == all_done(
            disk,
            completed.take(completed.len() - n),
        ),
        n == completed.len() ==> all_reversed(all_done(disk, completed), completed, replies, n)
            == disk,
    decreases n,
{
    if n == 0 {
        assert(completed.take(completed.len() as int) =~= completed);
    } else {
        let fewer = (n - 1) as nat;
        law_a_clean_rollback_puts_the_disk_back(disk, completed, replies, fewer);
        assert(replies[n - 1] is Done);
        let left = completed.take(completed.len() - fewer);
        assert(left.drop_last() =~= completed.take(completed.len() - n));
        assert(left.last() == completed[completed.len() - n]);
        lemma_fit_prefix(disk, completed, completed.len() - fewer);
        law_undoing_takes_a_step_back(all_done(disk, left.drop_last()), left.last());
    }
    if n == completed.len() {
        assert(completed.take(0) =~= Seq::empty());
    }
}

proof fn lemma_fit_prefix(disk: Disk, steps: Seq<StepView>, n: int)
    requires
        all_fit(disk, steps),
        0 <= n <= steps.len(),
    ensures
        all_fit(disk, steps.take(n)),
    decreases steps.len(),
{
    if n == steps.len() {
        assert(steps.take(n) =~= steps);
    } else {
        lemma_fit_prefix(disk, steps.drop_last(), n);
        assert(steps.drop_last().take(n) =~= steps.take(n));
    }
}

/// A failed run whose reversals all succeed reverses exactly what was completed
/// before the failure, and its error is given once the disk is as it was.
pub proof fn law_a_failed_run_changes_nothing(
    disk: Disk,
    steps: Seq<StepView>,
    performed: Seq<ReplyView>,
    reversed: Seq<ReplyView>,
)
    requires
        0 < performed.len() <= steps.len(),
        performed.last() is Failed,
        all_fit(disk, steps.take(performed.len() - 1)),
        forall|i: int| 0 <= i < reversed.len() ==> #[trigger] reversed[i] is Done,
        reversed.len() == performed.len() - 1,
    ensures
        ({
            let completed = steps.take(performed.len() - 1);
            &&& journal::run_next(steps, performed, reversed) == RunView::Failed(
                journal::rollback_error(completed, reversed, journal::words(performed.last())),
            )
            &&& all_reversed(all_done(disk, completed), completed, reversed, completed.len())
                == disk
        }),
{
    let completed = steps.take(performed.len() - 1);
    law_a_clean_rollback_puts_the_disk_back(disk, completed, reversed, completed.len());
}

} // verus!
