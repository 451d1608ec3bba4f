//! What a poll does next, for each connector: when it returns, what it returns, and how long it
//! waits.
use vstd::prelude::*;
use crate::event::EventView;
use crate::mysql::binlog;
use crate::mysql::reader;
use crate::mysql::turn as mysql_turn;
use crate::poll;
use crate::poll::AfterPoll;
use crate::postgres::polling;
use crate::postgres::stream::PostgresStreamHandle;
use crate::postgres::turn;
use crate::postgres::turn::{ActionView, PollPhase, PollTurn};

verus! {

/// A poll that has events returns them at once, and one without returns once its budget is spent.
/// Until then it waits an interval, or what is left of the budget where that is less.
pub proof fn poll_waits_only_for_events(
    timeout_ms: u64,
    elapsed_ms: u64,
    interval_ms: u64,
)
    ensures
        poll::next_step(true, timeout_ms, elapsed_ms, interval_ms) == AfterPoll::Return,
        elapsed_ms >= timeout_ms ==> poll::next_step(false, timeout_ms, elapsed_ms, interval_ms)
            == AfterPoll::Return,
        elapsed_ms < timeout_ms && elapsed_ms + interval_ms <= timeout_ms ==> poll::next_step(
            false,
            timeout_ms,
            elapsed_ms,
            interval_ms,
        ) == AfterPoll::Sleep(interval_ms),
        elapsed_ms < timeout_ms && elapsed_ms + interval_ms > timeout_ms ==> poll::next_step(
            false,
            timeout_ms,
            elapsed_ms,
            interval_ms,
        ) == AfterPoll::Sleep((timeout_ms - elapsed_ms) as u64),
{
}

/// A MySQL read returns every event that it delivers, and nothing only once the budget is spent.
pub proof fn mysql_read_returns_what_it_delivers(
    events: Seq<EventView>,
    timeout_ms: u64,
    elapsed_ms: u64,
    interval_ms: u64,
)
    ensures
        events.len() > 0 ==> mysql_turn::after_messages(
            events,
            timeout_ms,
            elapsed_ms,
            interval_ms,
        ) == mysql_turn::ActionView::Return(events),
        events.len() == 0 && elapsed_ms >= timeout_ms ==> (mysql_turn::after_messages(
            events,
            timeout_ms,
            elapsed_ms,
            interval_ms,
        ) matches mysql_turn::ActionView::Return(returned) && returned.len() == 0),
        events.len() == 0 && elapsed_ms < timeout_ms ==> (mysql_turn::after_messages(
            events,
            timeout_ms,
            elapsed_ms,
            interval_ms,
        ) matches mysql_turn::ActionView::Sleep(wait) && wait <= interval_ms && elapsed_ms + wait
            <= timeout_ms && (wait == interval_ms || elapsed_ms + wait == timeout_ms)),
{
}

/// A MySQL batch may take what is left of the caller's budget, or of one interval where the caller
/// only wants what is there.
pub proof fn mysql_batch_keeps_to_its_time(timeout_ms: u64, interval_ms: u64, elapsed_ms: u64)
    ensures
        0 < timeout_ms && elapsed_ms <= timeout_ms ==> elapsed_ms + mysql_turn::batch_time_left(
            timeout_ms,
            interval_ms,
            elapsed_ms,
        ) == timeout_ms,
        timeout_ms == 0 && elapsed_ms <= interval_ms ==> elapsed_ms
            + mysql_turn::batch_time_left(timeout_ms, interval_ms, elapsed_ms) == interval_ms,
        elapsed_ms > timeout_ms && elapsed_ms > interval_ms ==> mysql_turn::batch_time_left(
            timeout_ms,
            interval_ms,
            elapsed_ms,
        ) == 0,
{
}

/// A batch of binlog events goes on exactly while it has room and is empty or has time left. An
/// empty one waits a whole interval for its first event; no other waits past its time.
pub proof fn binlog_batch_waits_for_its_first_event(
    size: nat,
    max_events: usize,
    remaining: nat,
    poll_interval_ms: u64,
)
    ensures
        size >= max_events ==> !reader::reads_on(size, max_events, remaining),
        size < max_events && size == 0 ==> reader::reads_on(size, max_events, remaining),
        size < max_events && size > 0 ==> (reader::reads_on(size, max_events, remaining)
            <==> remaining > 0),
        reader::read_wait(0, remaining, poll_interval_ms) == poll_interval_ms * 1_000_000,
        size > 0 ==> reader::read_wait(size, remaining, poll_interval_ms) <= remaining,
        size > 0 ==> reader::read_wait(size, remaining, poll_interval_ms) <= poll_interval_ms
            * 1_000_000,
        size > 0 ==> (reader::read_wait(size, remaining, poll_interval_ms) == remaining
            || reader::read_wait(size, remaining, poll_interval_ms) == poll_interval_ms
            * 1_000_000),
{
}

/// The place to resume from is that of the last event that has one.
pub proof fn place_follows_the_events(current: u32, event_log_pos: u32)
    ensures
        event_log_pos != 0 ==> binlog::position_after(current, event_log_pos) == event_log_pos,
        event_log_pos == 0 ==> binlog::position_after(current, event_log_pos) == current,
{
}

/// A PostgreSQL peek of a transport that only does work has half a minute, and of one that waits
/// for data what is left of the caller's budget, up to as much.
pub proof fn peek_has_its_time(timeout_ms: u64, elapsed_ms: u64)
    ensures
        polling::peek_budget(false, timeout_ms, elapsed_ms) == 30_000,
        elapsed_ms >= timeout_ms ==> polling::peek_budget(true, timeout_ms, elapsed_ms) == 0,
        elapsed_ms < timeout_ms && timeout_ms - elapsed_ms <= 30_000 ==> polling::peek_budget(
            true,
            timeout_ms,
            elapsed_ms,
        ) == timeout_ms - elapsed_ms,
        elapsed_ms < timeout_ms && timeout_ms - elapsed_ms > 30_000 ==> polling::peek_budget(
            true,
            timeout_ms,
            elapsed_ms,
        ) == 30_000,
{
}

/// A peek's window halves after a peek that did not complete and doubles after one that did, but
/// for its bounds: it never asks for less than one change or for more than a poll may return.
pub proof fn window_halves_and_doubles(window: usize, most: usize)
    requires
        1 <= window <= most,
    ensures
        2 * window <= most ==> polling::next_window(window, most, true) == 2 * window,
        2 * window > most ==> polling::next_window(window, most, true) == most,
        window >= 2 ==> polling::next_window(window, most, false) == window / 2,
        window == 1 ==> polling::next_window(window, most, false) == 1,
{
}

/// A peek asks for the window that the stream has come to.
pub proof fn peek_asks_for_the_window(
    handle: PostgresStreamHandle,
    poll_turn: PollTurn,
    elapsed_ms: u64,
)
    ensures
        turn::peek(handle, poll_turn, elapsed_ms).0 == PollPhase::Peeking,
        turn::peek(handle, poll_turn, elapsed_ms).1 matches ActionView::Peek { window, budget_ms }
            && window == handle.peek_window && budget_ms == polling::peek_budget(
            poll_turn.waits_for_data,
            poll_turn.timeout_ms,
            elapsed_ms,
        ),
{
}

/// The slot's lag is measured at first, and then once an interval has passed: the one that idle
/// slots are advanced in, or fifteen seconds where they are not. An idle slot is advanced only
/// where that is asked for, the slot has nothing more, and an interval has passed.
pub proof fn slot_is_looked_after_at_intervals(
    handle: PostgresStreamHandle,
    caught_up: bool,
    clock_ms: u64,
)
    ensures
        handle.last_slot_lag_at is None ==> handle.sample_due(clock_ms),
        handle.last_slot_lag_at matches Some(at) ==> (handle.sample_due(clock_ms) <==> at + (
        if handle.slot_idle_advance_interval_ms > 0 {
            handle.slot_idle_advance_interval_ms
        } else {
            15_000
        }) <= clock_ms),
        handle.advance_due(caught_up, clock_ms) ==> caught_up
            && handle.slot_idle_advance_interval_ms > 0,
        caught_up && handle.slot_idle_advance_interval_ms > 0 ==> (
        handle.last_idle_advance_at is None ==> handle.advance_due(caught_up, clock_ms)),
        caught_up && handle.slot_idle_advance_interval_ms > 0 ==> (
        handle.last_idle_advance_at matches Some(at) ==> (handle.advance_due(caught_up, clock_ms)
            <==> at + handle.slot_idle_advance_interval_ms <= clock_ms)),
{
}

/// A PostgreSQL peek's events are returned, all of them and in their order; they go through a
/// reading back of omitted values first where that is wanted and one of them lacks any.
pub proof fn peeked_events_are_returned(
    handle: PostgresStreamHandle,
    poll_turn: PollTurn,
    events: Seq<EventView>,
    moved: bool,
    elapsed_ms: u64,
    clock_ms: u64,
)
    requires
        events.len() > 0,
    ensures
        ({
            let (phase, action) = turn::after_frames(
                handle,
                poll_turn,
                events,
                moved,
                elapsed_ms,
                clock_ms,
            );
            let incomplete = exists|i: int|
                0 <= i < events.len() && (#[trigger] events[i]).unavailable_columns.len() != 0;
            &&& !poll_turn.reselects || !incomplete ==> phase == PollPhase::Over && action
                == ActionView::Return(events)
            &&& poll_turn.reselects && incomplete ==> phase == PollPhase::Reselecting && action
                == ActionView::Reselect(events)
        }),
{
}

/// An attempt without events looks after the slot where that is due, the lag first; otherwise it
/// waits, or returns nothing once the budget is spent.
pub proof fn attempt_without_events_goes_on(
    handle: PostgresStreamHandle,
    poll_turn: PollTurn,
    elapsed_ms: u64,
    clock_ms: u64,
)
    ensures
        ({
            let (phase, action) = turn::after_frames(
                handle,
                poll_turn,
                Seq::empty(),
                false,
                elapsed_ms,
                clock_ms,
            );
            let measured = turn::after_measuring(handle, poll_turn, elapsed_ms, clock_ms);
            let ended = turn::ending(handle, poll_turn, elapsed_ms);
            &&& handle.sample_due(clock_ms) ==> phase == PollPhase::Measuring && action
                == ActionView::MeasureLag
            &&& !handle.sample_due(clock_ms) ==> (phase, action) == measured
            &&& handle.advance_due(poll_turn.caught_up, clock_ms) ==> measured == (
                PollPhase::Advancing,
                ActionView::AdvanceSlot,
            )
            &&& !handle.advance_due(poll_turn.caught_up, clock_ms) ==> measured == ended
            &&& elapsed_ms >= poll_turn.timeout_ms ==> ended.0 == PollPhase::Over && (
            ended.1 matches ActionView::Return(returned) && returned.len() == 0)
            &&& elapsed_ms < poll_turn.timeout_ms ==> ended.0 == PollPhase::Waiting && (
            ended.1 matches ActionView::Sleep(wait) && elapsed_ms + wait <= poll_turn.timeout_ms
                && wait <= handle.stream_poll_interval_ms && (wait
                == handle.stream_poll_interval_ms || elapsed_ms + wait == poll_turn.timeout_ms))
        }),
{
}

} // verus!
