//! The decisions of the watch loop: what to do next, given where the loop
//! stands and what just happened. Waiting, sleeping and running passes is the
//! caller's part.
use vstd::prelude::*;
use crate::pass::SortOutcome;

verus! {

/// Where the watch loop stands.
#[derive(PartialEq, Eq, Structural, Clone, Copy, Debug)]
pub enum WatchState {
    /// Waiting for the next change notification.
    Idle,
    /// A pass has been asked for and its outcome is awaited.
    Sorting,
    /// A pass was deferred; the loop waits out the retry interval.
    Draining,
    /// The notification channel broke; the loop is over.
    Stopped,
}

/// What the watch loop observed.
#[derive(PartialEq, Eq, Structural, Clone, Copy, Debug)]
pub enum WatchEvent {
    /// A notification that something was created in the directory.
    Created,
    /// Any other change notification.
    OtherChange,
    /// The watcher reported an error about one notification.
    WatchError,
    /// The poll interval passed without a notification.
    Timeout,
    /// The notification channel itself is broken.
    ChannelClosed,
    /// A pass has run, with this outcome.
    PassFinished(SortOutcome),
    /// The retry interval after a deferred pass has passed.
    RetryDue,
}

/// What the caller is to do next.
#[derive(PartialEq, Eq, Structural, Clone, Copy, Debug)]
pub enum WatchAction {
    /// Wait up to one poll interval for the next notification.
    Wait,
    /// Log the watcher's error, then wait for the next notification.
    ReportError,
    /// Run a sorting pass and report its outcome.
    RunPass,
    /// Sleep for the retry interval, then report that it passed.
    Sleep,
    /// Leave the loop.
    Exit,
}

/// The watch loop's transition: the next state and the action to take.
pub open spec fn transition(state: WatchState, event: WatchEvent) -> (WatchState, WatchAction) {
    match (state, event) {
        (WatchState::Stopped, _) => (WatchState::Stopped, WatchAction::Exit),
        (_, WatchEvent::ChannelClosed) => (WatchState::Stopped, WatchAction::Exit),
        (WatchState::Idle, WatchEvent::Created) => (WatchState::Sorting, WatchAction::RunPass),
        (WatchState::Idle, WatchEvent::WatchError) => (WatchState::Idle, WatchAction::ReportError),
        (WatchState::Sorting, WatchEvent::PassFinished(SortOutcome::Completed)) => (
            WatchState::Idle,
            WatchAction::Wait,
        ),
        (WatchState::Sorting, WatchEvent::PassFinished(SortOutcome::Deferred)) => (
            WatchState::Draining,
            WatchAction::Sleep,
        ),
        (WatchState::Draining, WatchEvent::RetryDue) => (WatchState::Sorting, WatchAction::RunPass),
        (WatchState::Idle, _) => (WatchState::Idle, WatchAction::Wait),
        (WatchState::Sorting, _) => (WatchState::Sorting, WatchAction::RunPass),
        (WatchState::Draining, _) => (WatchState::Draining, WatchAction::Sleep),
    }
}

/// Decides the watch loop's next step. A creation notification runs a pass;
/// a deferred pass is retried after a sleep until one completes; a watcher
/// error is logged and the loop goes on; a broken channel ends it. Any other
/// event leaves the state as it is and repeats the action that the state
/// awaits the outcome of.
pub fn next_step(state: WatchState, event: WatchEvent) -> (r: (WatchState, WatchAction))
    ensures
        r == transition(state, event),
{
    match (state, event) {
        (WatchState::Stopped, _) => (WatchState::Stopped, WatchAction::Exit),
        (_, WatchEvent::ChannelClosed) => (WatchState::Stopped, WatchAction::Exit),
        (WatchState::Idle, WatchEvent::Created) => (WatchState::Sorting, WatchAction::RunPass),
        (WatchState::Idle, WatchEvent::WatchError) => (WatchState::Idle, WatchAction::ReportError),
        (WatchState::Sorting, WatchEvent::PassFinished(SortOutcome::Completed)) => (
            WatchState::Idle,
            WatchAction::Wait,
        ),
        (WatchState::Sorting, WatchEvent::PassFinished(SortOutcome::Deferred)) => (
            WatchState::Draining,
            WatchAction::Sleep,
        ),
        (WatchState::Draining, WatchEvent::RetryDue) => (WatchState::Sorting, WatchAction::RunPass),
        (WatchState::Idle, _) => (WatchState::Idle, WatchAction::Wait),
        (WatchState::Sorting, _) => (WatchState::Sorting, WatchAction::RunPass),
        (WatchState::Draining, _) => (WatchState::Draining, WatchAction::Sleep),
    }
}

} // verus!
