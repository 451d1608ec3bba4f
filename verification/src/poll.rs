//! When a stream's poll is over, and how long it waits before the next attempt.
use vstd::prelude::*;

verus! {

/// What a poll does next.
#[derive(Debug, Clone, Copy, PartialEq, Eq, Structural)]
pub enum AfterPoll {
    /// Return what there is.
    Return,
    /// Wait this many milliseconds and try again.
    Sleep(u64),
}

/// What a poll does once an attempt is over: it returns with events, with a budget of zero, or
/// with its budget spent; it never waits longer than the interval or the budget left.
pub open spec fn next_step(
    produced: bool,
    timeout_ms: u64,
    elapsed_ms: u64,
    interval_ms: u64,
) -> AfterPoll {
    if produced || timeout_ms == 0 || elapsed_ms >= timeout_ms {
        AfterPoll::Return
    } else if interval_ms <= timeout_ms - elapsed_ms {
        AfterPoll::Sleep(interval_ms)
    } else {
        AfterPoll::Sleep((timeout_ms - elapsed_ms) as u64)
    }
}

/// What a poll does once an attempt is over; see [`next_step`].
pub fn after_poll(produced: bool, timeout_ms: u64, elapsed_ms: u64, interval_ms: u64) -> (next:
    AfterPoll)
    ensures
        next == next_step(produced, timeout_ms, elapsed_ms, interval_ms),
{
    if produced || timeout_ms == 0 || elapsed_ms >= timeout_ms {
        AfterPoll::Return
    } else if interval_ms <= timeout_ms - elapsed_ms {
        AfterPoll::Sleep(interval_ms)
    } else {
        AfterPoll::Sleep(timeout_ms - elapsed_ms)
    }
}

/// A wait never runs past the caller's budget.
pub proof fn waiting_keeps_the_budget(
    produced: bool,
    timeout_ms: u64,
    elapsed_ms: u64,
    interval_ms: u64,
)
    ensures
        next_step(produced, timeout_ms, elapsed_ms, interval_ms) matches AfterPoll::Sleep(wait)
            ==> elapsed_ms + wait <= timeout_ms && wait <= interval_ms && !produced,
{
}

/// How long a batch may be assembled, in milliseconds: the caller's budget, or one interval where
/// the caller only wants what is there.
pub fn batch_budget(timeout_ms: u64, interval_ms: u64) -> (budget_ms: u64)
    ensures
        budget_ms == (if timeout_ms == 0 {
            interval_ms
        } else {
            timeout_ms
        }),
{
    if timeout_ms == 0 {
        interval_ms
    } else {
        timeout_ms
    }
}

} // verus!
