//! How a PostgreSQL stream is polled: how much to ask for, when to confirm, to advance an idle
//! slot and to measure its lag, and where a restart may resume.
use std::collections::VecDeque;
use vstd::prelude::*;
use crate::error::Error;
use crate::event::Event;
use crate::postgres::lsn;
use crate::postgres::parser::PostgresOffset;
use crate::postgres::stream;
use crate::postgres::stream::{
    PgOutputXLogData, PostgresStream, PostgresStreamHandle, StreamState, StreamView,
};
use crate::text;

verus! {

/// The longest that one peek may take, in milliseconds.
pub const DEFAULT_POLL_BACKSTOP_MS: u64 = 30_000;

/// How often the slot's lag is measured where idle slots are not advanced, in milliseconds.
pub const DEFAULT_SLOT_LAG_SAMPLE_INTERVAL_MS: u64 = 15_000;

/// What is told of a poll while the stream is not running.
pub const NOT_RUNNING: &'static str =
    "postgres stream polling requested while stream is not running";

/// What a peek came to.
#[derive(Debug, PartialEq, Eq)]
pub enum PollOutcome {
    /// It completed, with these frames.
    Data(Vec<PgOutputXLogData>),
    /// It did not complete within its budget.
    TimedOut,
}

impl PollOutcome {
    /// Whether the slot has nothing more: only a peek that completed without frames shows it.
    pub open spec fn caught_up(self) -> bool {
        self matches PollOutcome::Data(frames) && frames@.len() == 0
    }

    /// Whether the slot has nothing more; see [`PollOutcome::caught_up`].
    pub fn is_caught_up(&self) -> (yes: bool)
        ensures
            yes == self.caught_up(),
    {
        match self {
            PollOutcome::Data(frames) => frames.len() == 0,
            PollOutcome::TimedOut => false,
        }
    }

    /// The frames, none where the peek did not complete.
    pub fn into_rows(self) -> (frames: Vec<PgOutputXLogData>)
        ensures
            match self {
                PollOutcome::Data(list) => frames@ == list@,
                PollOutcome::TimedOut => frames@.len() == 0,
            },
    {
        match self {
            PollOutcome::Data(frames) => frames,
            PollOutcome::TimedOut => Vec::new(),
        }
    }
}

/// How long one peek may take, in milliseconds. A transport that waits for data gets what is left
/// of the caller's budget; one that only does work gets the backstop, and neither gets more.
pub open spec fn peek_budget(waits_for_data: bool, timeout_ms: u64, elapsed_ms: u64) -> u64 {
    if !waits_for_data {
        DEFAULT_POLL_BACKSTOP_MS
    } else if elapsed_ms >= timeout_ms {
        0
    } else if timeout_ms - elapsed_ms < DEFAULT_POLL_BACKSTOP_MS {
        (timeout_ms - elapsed_ms) as u64
    } else {
        DEFAULT_POLL_BACKSTOP_MS
    }
}

/// How long one peek may take; see [`peek_budget`].
pub fn poll_budget_ms(waits_for_data: bool, timeout_ms: u64, elapsed_ms: u64) -> (budget_ms: u64)
    ensures
        budget_ms == peek_budget(waits_for_data, timeout_ms, elapsed_ms),
{
    if !waits_for_data {
        DEFAULT_POLL_BACKSTOP_MS
    } else if elapsed_ms >= timeout_ms {
        0
    } else if timeout_ms - elapsed_ms < DEFAULT_POLL_BACKSTOP_MS {
        timeout_ms - elapsed_ms
    } else {
        DEFAULT_POLL_BACKSTOP_MS
    }
}

/// A transport that waits for data is never given more than the caller has left.
pub proof fn waiting_keeps_to_the_budget(timeout_ms: u64, elapsed_ms: u64)
    requires
        elapsed_ms <= timeout_ms,
    ensures
        elapsed_ms + peek_budget(true, timeout_ms, elapsed_ms) <= timeout_ms,
{
}

/// The window of the next peek: half after one that did not complete, and twice as much after one
/// that did, up to the most events of a poll.
pub open spec fn next_window(window: usize, most: usize, completed: bool) -> usize {
    if completed {
        if window >= most {
            window
        } else if window * 2 >= most {
            most
        } else {
            (window * 2) as usize
        }
    } else if window >= 2 {
        (window / 2) as usize
    } else {
        window
    }
}

/// The window stays within its bounds. It shrinks with every peek that does not complete, until it
/// asks for a single change, and grows back with every peek that does, until it is whole.
pub proof fn window_adapts_within_bounds(window: usize, most: usize, completed: bool)
    requires
        1 <= window <= most,
    ensures
        1 <= next_window(window, most, completed) <= most,
        !completed && window > 1 ==> next_window(window, most, completed) < window,
        completed && window < most ==> next_window(window, most, completed) > window,
{
}

/// The last end remembered of a transaction.
pub open spec fn last_end(ends: Seq<(u64, u64)>, tx_id: u64) -> Option<u64>
    decreases ends.len(),
{
    if ends.len() == 0 {
        None
    } else if ends.last().0 == tx_id {
        Some(ends.last().1)
    } else {
        last_end(ends.drop_last(), tx_id)
    }
}

/// The ends past a confirmed place.
pub open spec fn unsettled(ends: Seq<(u64, u64)>, place: u64) -> Seq<(u64, u64)>
    decreases ends.len(),
{
    if ends.len() == 0 {
        Seq::empty()
    } else {
        let before = unsettled(ends.drop_last(), place);
        if ends.last().1 > place {
            before.push(ends.last())
        } else {
            before
        }
    }
}

impl PostgresStreamHandle {
    /// The window is within its bounds.
    pub open spec fn wf(self) -> bool {
        1 <= self.peek_window <= self.max_events_per_poll
    }

    /// Whether the stream may be polled.
    pub fn begin_poll(&self) -> (checked: Result<(), Error>)
        ensures
            checked is Ok == (self.stream.replication_status == StreamState::Streaming),
            checked matches Err(error) ==> error is StateError && error.text() == NOT_RUNNING@,
    {
        match self.stream.replication_status {
            StreamState::Streaming => Ok(()),
            _ => Err(Error::StateError(NOT_RUNNING.to_owned())),
        }
    }

    /// Adapts the window to what a peek came to; see [`next_window`].
    pub fn adapt_window(&mut self, outcome: &PollOutcome)
        requires
            old(self).wf(),
        ensures
            final(self).wf(),
            *final(self) == (PostgresStreamHandle {
                peek_window: next_window(
                    old(self).peek_window,
                    old(self).max_events_per_poll,
                    outcome is Data,
                ),
                ..*old(self)
            }),
    {
        match outcome {
            PollOutcome::Data(_) => {
                if self.peek_window < self.max_events_per_poll {
                    if self.peek_window > self.max_events_per_poll / 2 {
                        self.peek_window = self.max_events_per_poll;
                    } else {
                        self.peek_window = self.peek_window * 2;
                    }
                }
            },
            PollOutcome::TimedOut => {
                if self.peek_window >= 2 {
                    self.peek_window = self.peek_window / 2;
                }
            },
        }
    }

    /// Takes in the frames of a peek at a time of the clock. Returns their events and, where there
    /// are none though the stream has moved on, the place to confirm: a peek that is not
    /// confirmed would give the same frames again.
    pub fn take_frames(&mut self, frames: Vec<PgOutputXLogData>, now: u64, clock_ms: u64) -> (
        outcome: Result<(Vec<Event>, Option<u64>), Error>)
        ensures
            ({
                let ran = stream::run(old(self).settings(), old(self).progress(), frames@, now);
                &&& final(self).progress() == ran.0
                &&& final(self).same_otherwise(
                    (PostgresStreamHandle {
                        last_idle_advance_at: if frames@.len() > 0 {
                            Some(clock_ms)
                        } else {
                            old(self).last_idle_advance_at
                        },
                        ..*old(self)
                    }),
                )
                &&& match outcome {
                    Ok((events, confirm)) => ran.2 && crate::event::event_views(events@) == ran.1
                        && confirm == (if ran.1.len() == 0 && ran.0.position > old(
                        self,
                    ).progress().position {
                        Some(ran.0.position)
                    } else {
                        None
                    }),
                    Err(error) => !ran.2 && error is SourceError && error.text()
                        == stream::run_fault(
                        old(self).settings(),
                        old(self).progress(),
                        frames@,
                        now,
                    ),
                }
            }),
    {
        if frames.len() > 0 {
            self.last_idle_advance_at = Some(clock_ms);
        }
        let before = self.stream.lsn_position;
        match self.process_messages(frames, now) {
            Ok(events) => {
                proof {
                    assert(crate::event::event_views(events@).len() == events@.len());
                }
                let confirm = if events.len() == 0 && self.stream.lsn_position > before {
                    Some(self.stream.lsn_position)
                } else {
                    None
                };
                Ok((events, confirm))
            },
            Err(error) => Err(error),
        }
    }

    /// Whether it is time to measure the slot's lag. It is measured on a timer, whether the slot
    /// is caught up or not.
    pub open spec fn sample_due(self, clock_ms: u64) -> bool {
        let interval = if self.slot_idle_advance_interval_ms > 0 {
            self.slot_idle_advance_interval_ms
        } else {
            DEFAULT_SLOT_LAG_SAMPLE_INTERVAL_MS
        };
        match self.last_slot_lag_at {
            Some(at) => clock_ms - at >= interval,
            None => true,
        }
    }

    /// Whether it is time to measure the slot's lag; see [`PostgresStreamHandle::sample_due`].
    pub fn slot_lag_sample_due(&self, clock_ms: u64) -> (due: bool)
        ensures
            due == self.sample_due(clock_ms),
    {
        let interval = if self.slot_idle_advance_interval_ms > 0 {
            self.slot_idle_advance_interval_ms
        } else {
            DEFAULT_SLOT_LAG_SAMPLE_INTERVAL_MS
        };
        match self.last_slot_lag_at {
            Some(at) => clock_ms >= at && clock_ms - at >= interval,
            None => true,
        }
    }

    /// Whether to advance the slot to the end of the log. That discards what was not read, so that
    /// only a peek that completed without frames allows it.
    pub open spec fn advance_due(self, caught_up: bool, clock_ms: u64) -> bool {
        &&& caught_up
        &&& self.slot_idle_advance_interval_ms > 0
        &&& match self.last_idle_advance_at {
            Some(at) => clock_ms - at >= self.slot_idle_advance_interval_ms,
            None => true,
        }
    }

    /// Whether to advance an idle slot; see [`PostgresStreamHandle::advance_due`].
    pub fn idle_advance_due(&self, caught_up: bool, clock_ms: u64) -> (due: bool)
        ensures
            due == self.advance_due(caught_up, clock_ms),
    {
        caught_up && self.slot_idle_advance_interval_ms > 0
            && match self.last_idle_advance_at {
            Some(at) => clock_ms >= at && clock_ms - at >= self.slot_idle_advance_interval_ms,
            None => true,
        }
    }

    /// The slot's lag was measured.
    pub fn slot_lag_measured(&mut self, lag_bytes: u64, clock_ms: u64)
        ensures
            *final(self) == (PostgresStreamHandle {
                last_slot_lag_bytes: lag_bytes,
                last_slot_lag_at: Some(clock_ms),
                ..*old(self)
            }),
    {
        self.last_slot_lag_bytes = lag_bytes;
        self.last_slot_lag_at = Some(clock_ms);
    }

    /// An idle slot was advanced, which measured its lag too.
    pub fn idle_advanced(&mut self, lag_bytes: u64, clock_ms: u64)
        ensures
            *final(self) == (PostgresStreamHandle {
                last_slot_lag_bytes: lag_bytes,
                last_slot_lag_at: Some(clock_ms),
                last_idle_advance_at: Some(clock_ms),
                ..*old(self)
            }),
    {
        self.last_slot_lag_bytes = lag_bytes;
        self.last_slot_lag_at = Some(clock_ms);
        self.last_idle_advance_at = Some(clock_ms);
    }

    /// The slot's lag in bytes, `None` before the first measurement.
    pub fn replication_slot_lag_bytes(&self) -> (lag: Option<u64>)
        ensures
            lag == (match self.last_slot_lag_at {
                Some(_) => Some(self.last_slot_lag_bytes),
                None => None,
            }),
    {
        match self.last_slot_lag_at {
            Some(_) => Some(self.last_slot_lag_bytes),
            None => None,
        }
    }

    /// The stream's durable place.
    pub fn position_offset(&self) -> (offset: PostgresOffset)
        ensures
            offset.lsn == self.stream.lsn_position,
            offset.slot_name@ == self.stream.slot_name@,
    {
        PostgresOffset::new(self.stream.lsn_position, self.stream.slot_name.clone())
    }

    /// The offset that a restart after an event resumes from: the end of its transaction, which
    /// is the only place that loses and repeats nothing of it.
    pub fn resume_offset_for(&self, event: &Event) -> (offset: Option<String>)
        ensures
            text::text_option(offset) == (match event.transaction {
                Some(tx) => match last_end(self.progress().ends, tx.tx_id) {
                    Some(end) => Some(lsn::lsn_text(end)),
                    None => None,
                },
                None => None,
            }),
    {
        let tx_id = match &event.transaction {
            Some(tx) => tx.tx_id,
            None => {
                return None;
            },
        };
        let ghost ends = self.committed_tx_ends@;
        let size = self.committed_tx_ends.len();
        let mut i: usize = size;
        proof {
            assert(ends.take(size as int) =~= ends);
        }
        while i > 0
            invariant
                i <= size,
                size == ends.len(),
                ends == self.committed_tx_ends@,
                event.transaction is Some,
                (event.transaction->0).tx_id == tx_id,
                last_end(ends, tx_id) == last_end(ends.take(i as int), tx_id),
            decreases i,
        {
            proof {
                assert(ends.take(i as int).last() == ends[i - 1]);
                assert(ends.take(i as int).drop_last() =~= ends.take(i - 1));
            }
            let one = self.committed_tx_ends[i - 1];
            if one.0 == tx_id {
                return Some(lsn::format_pg_lsn(one.1));
            }
            i = i - 1;
        }
        None
    }

    /// A place was confirmed: what ends at or before it is settled.
    pub fn lsn_confirmed(&mut self, place: u64)
        ensures
            final(self).same_otherwise(*old(self)),
            final(self).progress() == (StreamView {
                ends: unsettled(old(self).progress().ends, place),
                ..old(self).progress()
            }),
    {
        let ghost ends = self.committed_tx_ends@;
        let size = self.committed_tx_ends.len();
        let mut left: VecDeque<(u64, u64)> = VecDeque::new();
        let mut i: usize = 0;
        proof {
            assert(ends.take(0) =~= Seq::empty());
            assert(left@ =~= Seq::empty());
        }
        while i < size
            invariant
                i <= size,
                size == ends.len(),
                ends == self.committed_tx_ends@,
                left@ == unsettled(ends.take(i as int), place),
                *self == *old(self),
            decreases size - i,
        {
            proof {
                assert(ends.take(i + 1).last() == ends[i as int]);
                assert(ends.take(i + 1).drop_last() =~= ends.take(i as int));
            }
            let one = self.committed_tx_ends[i];
            if one.1 > place {
                left.push_back(one);
            }
            i = i + 1;
        }
        proof {
            assert(ends.take(i as int) =~= ends);
        }
        self.committed_tx_ends = left;
    }

    /// The stream is over.
    pub fn stop(&mut self)
        ensures
            *final(self) == (PostgresStreamHandle {
                stream: PostgresStream {
                    replication_status: StreamState::Stopped,
                    ..old(self).stream
                },
                ..*old(self)
            }),
    {
        self.stream.replication_status = StreamState::Stopped;
    }
}

} // verus!
