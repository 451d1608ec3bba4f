//! One poll of a MySQL stream, as a machine: it says what to do next, and is told what came of it.
use vstd::prelude::*;
use crate::error::Error;
use crate::event;
use crate::event::{Event, EventView};
use crate::mysql::stream;
use crate::mysql::stream::{MysqlBinlogMessage, MysqlStreamHandle, StreamState};
use crate::poll;
use crate::poll::AfterPoll;

verus! {

/// What a poll is told.
pub enum PollEvent {
    /// The start, or the end of a wait.
    Done,
    /// The messages that were read.
    Polled(Vec<MysqlBinlogMessage>),
}

/// What a poll asks for.
pub enum PollAction {
    /// Read this many messages at most, and stop after this many milliseconds.
    Poll { max_events: usize, budget_ms: u64 },
    /// Wait this many milliseconds.
    Sleep(u64),
    /// Return these events.
    Return(Vec<Event>),
}

/// What a [`PollAction`] asks for.
pub enum ActionView {
    Poll { max_events: usize, budget_ms: u64 },
    Sleep(u64),
    Return(Seq<EventView>),
}

impl View for PollAction {
    type V = ActionView;

    open spec fn view(&self) -> ActionView {
        match self {
            PollAction::Poll { max_events, budget_ms } => ActionView::Poll {
                max_events: *max_events,
                budget_ms: *budget_ms,
            },
            PollAction::Sleep(wait) => ActionView::Sleep(*wait),
            PollAction::Return(events) => ActionView::Return(event::event_views(events@)),
        }
    }
}

/// What is left of the time that a batch may take: the caller's budget, or one interval where the
/// caller only wants what is there.
pub open spec fn batch_time_left(timeout_ms: u64, interval_ms: u64, elapsed_ms: u64) -> u64 {
    let whole = if timeout_ms == 0 {
        interval_ms
    } else {
        timeout_ms
    };
    if elapsed_ms >= whole {
        0
    } else {
        (whole - elapsed_ms) as u64
    }
}

/// What follows a read: the return of the events that it delivers, or of nothing once the budget
/// is spent, or a wait.
pub open spec fn after_messages(
    events: Seq<EventView>,
    timeout_ms: u64,
    elapsed_ms: u64,
    interval_ms: u64,
) -> ActionView {
    match poll::next_step(events.len() > 0, timeout_ms, elapsed_ms, interval_ms) {
        AfterPoll::Return => ActionView::Return(events),
        AfterPoll::Sleep(wait) => ActionView::Sleep(wait),
    }
}

impl MysqlStreamHandle {
    /// Goes on with a poll: takes in what it is told, and says what to do next. A stream that is
    /// not running is not polled, and events that were handed back come before anything new.
    pub fn next_events(
        &mut self,
        timeout_ms: u64,
        told: PollEvent,
        elapsed_ms: u64,
        now: u64,
    ) -> (action: Result<PollAction, Error>)
        ensures
            match told {
                PollEvent::Done => if old(self).stream.stream_state != StreamState::Streaming {
                    *final(self) == *old(self) && (action matches Err(error)
                        && error is StateError && error.text() == stream::NOT_RUNNING@)
                } else if old(self).requeued_events@.len() > 0 {
                    &&& final(self).requeued_events@.len() == 0
                    &&& *final(self) == (MysqlStreamHandle {
                        requeued_events: final(self).requeued_events,
                        ..*old(self)
                    })
                    &&& action matches Ok(action) && action@ == ActionView::Return(
                        event::event_views(old(self).requeued_events@),
                    )
                } else {
                    &&& *final(self) == *old(self)
                    &&& action matches Ok(action) && action@ == (ActionView::Poll {
                        max_events: old(self).max_events_per_poll,
                        budget_ms: batch_time_left(
                            timeout_ms,
                            old(self).stream_poll_interval_ms,
                            elapsed_ms,
                        ),
                    })
                },
                PollEvent::Polled(messages) => {
                    let ran = stream::run(
                        old(self).settings(),
                        old(self).progress(),
                        stream::message_views(messages@),
                        now,
                    );
                    &&& final(self).same_otherwise(*old(self))
                    &&& final(self).progress() == ran.0
                    &&& action matches Ok(action) && action@ == after_messages(
                        ran.1,
                        timeout_ms,
                        elapsed_ms,
                        old(self).stream_poll_interval_ms,
                    )
                },
            },
    {
        match told {
            PollEvent::Done => match self.take_requeued() {
                Err(error) => Err(error),
                Ok(Some(events)) => Ok(PollAction::Return(events)),
                Ok(None) => {
                    let whole = poll::batch_budget(timeout_ms, self.stream_poll_interval_ms);
                    Ok(
                        PollAction::Poll {
                            max_events: self.max_events_per_poll,
                            budget_ms: if elapsed_ms >= whole {
                                0
                            } else {
                                whole - elapsed_ms
                            },
                        },
                    )
                },
            },
            PollEvent::Polled(messages) => {
                let events = self.process_messages(messages, now);
                proof {
                    assert(event::event_views(events@).len() == events@.len());
                }
                match poll::after_poll(
                    events.len() > 0,
                    timeout_ms,
                    elapsed_ms,
                    self.stream_poll_interval_ms,
                ) {
                    AfterPoll::Return => Ok(PollAction::Return(events)),
                    AfterPoll::Sleep(wait) => Ok(PollAction::Sleep(wait)),
                }
            },
        }
    }
}

} // verus!
