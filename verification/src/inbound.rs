//! The window in which a server's own edits are honoured: while a command that
//! it was asked to run has not been answered.

use crate::edits;
use crate::edits::{ApplySummary, InboundEdits};
use crate::error::Error;
use crate::plan;
use crate::plan::{EditPlan, OperationView, WorkspaceEdit};
use vstd::prelude::*;

verus! {

/// How many edits of a server may wait while an earlier one is written.
pub const INBOUND_EDIT_QUEUE_DEPTH: usize = 4;

/// How far a window has got.
#[derive(Clone, Copy, Debug, PartialEq, Eq, Structural)]
pub enum WindowState {
    /// The command runs, and edits are taken.
    Open,
    /// The command runs, and no edit can arrive any more.
    Waiting,
    /// The command was answered, and what arrived before is still written.
    Draining,
    /// The window is closed.
    Closed,
}

/// What a window sees.
#[derive(Clone, Copy, Debug, PartialEq, Eq, Structural)]
pub enum WindowEvent {
    /// An edit of the server.
    Edit,
    /// Nothing waits, and nothing more can arrive.
    SinkGone,
    /// The answer to the command.
    Answered,
    /// Nothing waits.
    Idle,
}

/// What a window asks for.
#[derive(Clone, Copy, Debug, PartialEq, Eq, Structural)]
pub enum WindowAction {
    /// Write the edit, and answer the server.
    Apply,
    /// Turn the edit down.
    Refuse,
    /// Take in no further edits.
    CloseSink,
    /// Take the sink away from the client.
    ClearSink,
    /// Wait for what comes next.
    Wait,
}

/// The next state of a window, and what it asks for.
pub open spec fn window_step(state: WindowState, event: WindowEvent) -> (
    WindowState,
    WindowAction,
) {
    match (state, event) {
        (WindowState::Open, WindowEvent::Edit) => (WindowState::Open, WindowAction::Apply),
        (WindowState::Open, WindowEvent::SinkGone) => (WindowState::Waiting, WindowAction::Wait),
        (WindowState::Draining, WindowEvent::Edit) => (WindowState::Draining, WindowAction::Apply),
        (WindowState::Draining, WindowEvent::SinkGone) | (
            WindowState::Draining,
            WindowEvent::Idle,
        ) => (WindowState::Closed, WindowAction::ClearSink),
        (WindowState::Open, WindowEvent::Answered) | (WindowState::Waiting, WindowEvent::Answered) =>
        (WindowState::Draining, WindowAction::CloseSink),
        (_, WindowEvent::Edit) => (state, WindowAction::Refuse),
        _ => (state, WindowAction::Wait),
    }
}

/// The next state of a window, and what it asks for.
pub fn step(state: WindowState, event: WindowEvent) -> (r: (WindowState, WindowAction))
    ensures
        r == window_step(state, event),
{
    match (state, event) {
        (WindowState::Open, WindowEvent::Edit) => (WindowState::Open, WindowAction::Apply),
        (WindowState::Open, WindowEvent::SinkGone) => (WindowState::Waiting, WindowAction::Wait),
        (WindowState::Draining, WindowEvent::Edit) => (WindowState::Draining, WindowAction::Apply),
        (WindowState::Draining, WindowEvent::SinkGone) | (
            WindowState::Draining,
            WindowEvent::Idle,
        ) => (WindowState::Closed, WindowAction::ClearSink),
        (WindowState::Open, WindowEvent::Answered) | (WindowState::Waiting, WindowEvent::Answered) =>
        (WindowState::Draining, WindowAction::CloseSink),
        (_, WindowEvent::Edit) => (state, WindowAction::Refuse),
        _ => (state, WindowAction::Wait),
    }
}

/// What a window sees first: an edit that waits comes before the answer to the
/// command, which may have overtaken it.
pub open spec fn seen_first(edit_waits: bool, can_arrive: bool, answered: bool) -> WindowEvent {
    if edit_waits {
        WindowEvent::Edit
    } else if answered {
        WindowEvent::Answered
    } else if !can_arrive {
        WindowEvent::SinkGone
    } else {
        WindowEvent::Idle
    }
}

/// What a window sees first.
pub fn first_seen(edit_waits: bool, can_arrive: bool, answered: bool) -> (r: WindowEvent)
    ensures
        r == seen_first(edit_waits, can_arrive, answered),
{
    if edit_waits {
        WindowEvent::Edit
    } else if answered {
        WindowEvent::Answered
    } else if !can_arrive {
        WindowEvent::SinkGone
    } else {
        WindowEvent::Idle
    }
}

/// A window after one event and then another.
pub open spec fn window_after(state: WindowState, events: Seq<WindowEvent>) -> WindowState
    decreases events.len(),
{
    if events.len() == 0 {
        state
    } else {
        window_step(window_after(state, events.drop_last()), events.last()).0
    }
}

/// What comes next of an edit that a server sent.
#[derive(Debug)]
pub enum InboundNext {
    /// Write this plan.
    Apply(EditPlan),
    /// Answer the server whether the edit was applied.
    Answer(bool),
}

/// What an [`InboundNext`] stands for.
#[verifier::ext_equal]
pub enum InboundNextView {
    /// Write this plan.
    Apply(Seq<OperationView>),
    /// Answer the server whether the edit was applied.
    Answer(bool),
}

impl DeepView for InboundNext {
    type V = InboundNextView;

    open spec fn deep_view(&self) -> InboundNextView {
        match self {
            InboundNext::Apply(plan) => InboundNextView::Apply(plan.deep_view()),
            InboundNext::Answer(applied) => InboundNextView::Answer(*applied),
        }
    }
}

/// What comes next of an edit that a server sent. One that cannot be planned or
/// written is turned down, which fails nothing else.
pub open spec fn inbound_next(
    edit: WorkspaceEdit,
    applied: Option<Result<ApplySummary, Error>>,
) -> InboundNextView {
    match plan::plan_of(edit) {
        Err(_) => InboundNextView::Answer(false),
        Ok(operations) => match applied {
            None => InboundNextView::Apply(operations),
            Some(Err(_)) => InboundNextView::Answer(false),
            Some(Ok(_)) => InboundNextView::Answer(true),
        },
    }
}

/// What comes next of an edit that a server sent, with `applied` what writing
/// its plan came to. What was written is added to `written`.
pub fn apply_inbound_edit(
    edit: &WorkspaceEdit,
    applied: Option<Result<ApplySummary, Error>>,
    written: &mut InboundEdits,
) -> (r: InboundNext)
    ensures
        r.deep_view() == inbound_next(*edit, applied),
        final(written).deep_view() == match (r.deep_view(), applied) {
            (InboundNextView::Answer(true), Some(Ok(summary))) => edits::absorbed(
                old(written).deep_view(),
                summary.deep_view(),
            ),
            _ => old(written).deep_view(),
        },
{
    match EditPlan::of_edit(edit) {
        Err(_) => InboundNext::Answer(false),
        Ok(plan) => match applied {
            None => InboundNext::Apply(plan),
            Some(Err(_)) => InboundNext::Answer(false),
            Some(Ok(summary)) => {
                written.absorb(&summary);
                InboundNext::Answer(true)
            },
        },
    }
}

/// A closed window stays closed, and writes nothing: no server can write at a
/// moment of its own choosing.
pub proof fn law_a_closed_window_writes_nothing(events: Seq<WindowEvent>, next: WindowEvent)
    ensures
        window_after(WindowState::Closed, events) == WindowState::Closed,
        window_step(window_after(WindowState::Closed, events), next).1 != WindowAction::Apply,
    decreases events.len(),
{
    if events.len() > 0 {
        law_a_closed_window_writes_nothing(events.drop_last(), next);
    }
}

/// An edit that waits is written as long as the window has not closed, also
/// when the command was answered in the meantime.
pub proof fn law_an_edit_that_waits_is_written(state: WindowState, answered: bool)
    requires
        state == WindowState::Open || state == WindowState::Draining,
    ensures
        window_step(state, seen_first(true, true, answered)) == (state, WindowAction::Apply),
{
}

/// The answer to the command, and behind it a number of edits.
pub open spec fn answer_and_edits(edits_left: nat) -> Seq<WindowEvent> {
    seq![WindowEvent::Answered] + Seq::new(edits_left, |_i: int| WindowEvent::Edit)
}

/// Once the command was answered, an open window takes every edit that still
/// waits, and closes with the first look at an empty queue.
pub proof fn law_a_window_closes_behind_its_command(edits_left: nat)
    ensures
        window_after(WindowState::Open, answer_and_edits(edits_left)) == WindowState::Draining,
        window_after(WindowState::Open, answer_and_edits(edits_left).push(WindowEvent::Idle))
            == WindowState::Closed,
    decreases edits_left,
{
    let events = answer_and_edits(edits_left);
    if edits_left > 0 {
        let fewer = (edits_left - 1) as nat;
        law_a_window_closes_behind_its_command(fewer);
        assert(events.drop_last() =~= answer_and_edits(fewer));
        assert(events.last() == WindowEvent::Edit);
    } else {
        assert(events.drop_last() =~= Seq::empty());
        assert(events.last() == WindowEvent::Answered);
        assert(window_after(WindowState::Open, events.drop_last()) == WindowState::Open);
    }
    assert(events.push(WindowEvent::Idle).drop_last() =~= events);
}

} // verus!
