//! The life of one scheduled background activity (the ingestion cycle, the
//! flush cycle) as a state machine: run one unit of work, then wait for the
//! next tick or for cancellation, and never start new work once cancelled.
//!
//! The runtime that owns the timers and the cancellation signal feeds events
//! in; the machine answers with the next state and the action to perform.

use vstd::prelude::*;

verus! {

/// Where a scheduled activity stands.
#[derive(Debug, Clone, Copy, PartialEq, Eq, Structural)]
pub enum ActivityState {
    /// Not started yet.
    Idle,
    /// One unit of work is in flight; it is never interrupted mid-call.
    Running,
    /// Between cycles: racing the interval timer against cancellation.
    Waiting,
    /// Cancellation observed at a wait point; no new work will start.
    Cancelled,
    /// Fully stopped; terminal.
    Stopped,
}

/// What the runtime reports to the machine.
#[derive(Debug, Clone, Copy, PartialEq, Eq, Structural)]
pub enum ActivityEvent {
    /// The activity is scheduled for the first time.
    Start,
    /// The in-flight unit of work came back.
    WorkFinished,
    /// The interval timer fired first.
    TimerExpired,
    /// The cancellation signal arrived first.
    CancelSignalled,
}

/// What the runtime must do next.
#[derive(Debug, Clone, Copy, PartialEq, Eq, Structural)]
pub enum ActivityAction {
    /// Execute one unit of work.
    RunWork,
    /// Race the interval timer against the cancellation signal.
    AwaitNext,
    /// Tear the activity down.
    Finish,
    /// Nothing; the event does not apply to this state.
    Hold,
}

/// The transition function: first work, then wait; a tick runs work again;
/// cancellation at a wait point finishes the activity without new work.
pub open spec fn step_spec(s: ActivityState, e: ActivityEvent) -> (ActivityState, ActivityAction) {
    match (s, e) {
        (ActivityState::Idle, ActivityEvent::Start) => (ActivityState::Running, ActivityAction::RunWork),
        (ActivityState::Running, ActivityEvent::WorkFinished) => (ActivityState::Waiting, ActivityAction::AwaitNext),
        (ActivityState::Waiting, ActivityEvent::TimerExpired) => (ActivityState::Running, ActivityAction::RunWork),
        (ActivityState::Waiting, ActivityEvent::CancelSignalled) => (ActivityState::Cancelled, ActivityAction::Finish),
        (ActivityState::Cancelled, _) => (ActivityState::Stopped, ActivityAction::Finish),
        (ActivityState::Stopped, _) => (ActivityState::Stopped, ActivityAction::Finish),
        _ => (s, ActivityAction::Hold),
    }
}

/// Whether the activity has observed cancellation: from here no new work
/// ever starts.
pub open spec fn halted(s: ActivityState) -> bool {
    s is Cancelled || s is Stopped
}

/// Performs one transition, exactly as [`step_spec`] says.
pub fn step(s: ActivityState, e: ActivityEvent) -> (r: (ActivityState, ActivityAction))
    ensures
        r == step_spec(s, e),
        halted(s) ==> halted(r.0) && r.1 != ActivityAction::RunWork,
{
    match (s, e) {
        (ActivityState::Idle, ActivityEvent::Start) => (
            ActivityState::Running,
            ActivityAction::RunWork,
        ),
        (ActivityState::Running, ActivityEvent::WorkFinished) => (
            ActivityState::Waiting,
            ActivityAction::AwaitNext,
        ),
        (ActivityState::Waiting, ActivityEvent::TimerExpired) => (
            ActivityState::Running,
            ActivityAction::RunWork,
        ),
        (ActivityState::Waiting, ActivityEvent::CancelSignalled) => (
            ActivityState::Cancelled,
            ActivityAction::Finish,
        ),
        (ActivityState::Cancelled, _) => (ActivityState::Stopped, ActivityAction::Finish),
        (ActivityState::Stopped, _) => (ActivityState::Stopped, ActivityAction::Finish),
        _ => (s, ActivityAction::Hold),
    }
}

/// The state after a whole run of events.
pub open spec fn run_from(s: ActivityState, evs: Seq<ActivityEvent>) -> ActivityState
    decreases evs.len(),
{
    if evs.len() == 0 {
        s
    } else {
        run_from(step_spec(s, evs[0]).0, evs.drop_first())
    }
}

/// Cancellation is absorbing: once an activity has observed it, no run of
/// further events leaves the halted states or starts work again.
pub proof fn lemma_halted_is_terminal(s: ActivityState, evs: Seq<ActivityEvent>)
    requires
        halted(s),
    ensures
        halted(run_from(s, evs)),
    decreases evs.len(),
{
    if evs.len() > 0 {
        lemma_halted_is_terminal(step_spec(s, evs[0]).0, evs.drop_first());
    }
}

} // verus!
