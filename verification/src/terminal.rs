//! Waiting between two runs: how long to poll, and what an event that
//! arrives meanwhile leads to.

use std::time::Duration;
use vstd::prelude::*;

use crate::input::{action_from_event, event_action, Action, Event};
use crate::interval::{duration_nanos, duration_of_nanos};

verus! {

/// The longest single poll for events, so that a wait is never overslept by
/// more than this.
pub const POLL_SLICE_NANOS: u64 = 250_000_000;

/// How a wait ended.
#[derive(Debug, Clone, Copy, PartialEq, Eq, Structural)]
pub enum WaitOutcome {
    /// The user asked to leave.
    Quit,
    /// The command is to run at once.
    Trigger,
    /// The wait ran its full time.
    Timeout,
}

/// The length of the next poll when `remaining` is left of the wait: nothing
/// once the wait is over, else what is left, but one slice at most.
pub open spec fn poll_nanos(remaining: nat) -> Option<nat> {
    if remaining == 0 {
        None
    } else if remaining < POLL_SLICE_NANOS {
        Some(remaining)
    } else {
        Some(POLL_SLICE_NANOS as nat)
    }
}

/// Decides how long to poll for events next, given what is left until the
/// deadline. `None` says that the deadline has come.
pub fn poll_budget(remaining: Duration) -> (budget: Option<Duration>)
    ensures
        match poll_nanos(duration_nanos(remaining)) {
            Some(nanos) => budget is Some && duration_nanos(budget->0) == nanos,
            None => budget is None,
        },
{
    let left: u128 = remaining.as_nanos();
    if left == 0 {
        None
    } else if left < POLL_SLICE_NANOS as u128 {
        Some(remaining)
    } else {
        Some(duration_of_nanos(POLL_SLICE_NANOS as u128))
    }
}

/// What an event during the wait leads to: a resize reruns the command
/// unless reruns on resize are off; a key quits or reruns; a screenshot
/// request is only noted. `None` says that the wait goes on.
pub open spec fn event_outcome(event: Event, no_rerun: bool) -> Option<WaitOutcome> {
    if event is Resize && !no_rerun {
        Some(WaitOutcome::Trigger)
    } else {
        match event_action(event) {
            Some(Action::Quit) => Some(WaitOutcome::Quit),
            Some(Action::Trigger) => Some(WaitOutcome::Trigger),
            _ => None,
        }
    }
}

/// Whether an event asks for a screenshot of the frame on screen.
pub open spec fn asks_screenshot(event: Event, no_rerun: bool) -> bool {
    !(event is Resize && !no_rerun) && event_action(event) == Some(Action::Screenshot)
}

/// Takes in one event that arrived during the wait. Says how the wait ends,
/// if it does, and notes a screenshot request in `pending_screenshot`.
pub fn outcome_of_event(event: Event, no_rerun: bool, pending_screenshot: &mut bool) -> (outcome:
    Option<WaitOutcome>)
    ensures
        outcome == event_outcome(event, no_rerun),
        *final(pending_screenshot) == (*old(pending_screenshot) || asks_screenshot(
            event,
            no_rerun,
        )),
{
    if !no_rerun {
        if let Event::Resize(_, _) = event {
            return Some(WaitOutcome::Trigger);
        }
    }
    match action_from_event(event) {
        Some(Action::Quit) => Some(WaitOutcome::Quit),
        Some(Action::Trigger) => Some(WaitOutcome::Trigger),
        Some(Action::Screenshot) => {
            *pending_screenshot = true;
            None
        },
        None => None,
    }
}

} // verus!
