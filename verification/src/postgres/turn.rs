//! One poll of a PostgreSQL stream, as a machine: it says what to do next, and is told what came
//! of it.
use vstd::prelude::*;
use crate::error::Error;
use crate::event;
use crate::event::{Event, EventView};
use crate::poll;
use crate::poll::AfterPoll;
use crate::postgres::polling;
use crate::postgres::polling::PollOutcome;
use crate::postgres::stream;
use crate::postgres::stream::{PostgresStreamHandle, StreamState};

verus! {

/// What a poll waits for.
#[derive(Debug, Clone, Copy, PartialEq, Eq, Structural)]
pub enum PollPhase {
    /// To be started, or to go on after a wait.
    Waiting,
    /// A peek.
    Peeking,
    /// A confirmation.
    Confirming,
    /// Values read back from tables.
    Reselecting,
    /// A measurement of the slot's lag.
    Measuring,
    /// An advance of the idle slot.
    Advancing,
    /// Nothing: it is over.
    Over,
}

/// A poll under way.
#[derive(Debug, Clone, Copy, PartialEq, Eq)]
pub struct PollTurn {
    pub phase: PollPhase,
    /// The caller's budget in milliseconds.
    pub timeout_ms: u64,
    /// Whether the transport waits for data rather than doing work.
    pub waits_for_data: bool,
    /// Whether values that the log omits are read back from tables.
    pub reselects: bool,
    /// Whether the last peek showed that the slot has nothing more.
    pub caught_up: bool,
}

impl PollTurn {
    /// A poll to be started.
    pub fn new(timeout_ms: u64, waits_for_data: bool, reselects: bool) -> (turn: Self)
        ensures
            turn == (PollTurn {
                phase: PollPhase::Waiting,
                timeout_ms,
                waits_for_data,
                reselects,
                caught_up: false,
            }),
    {
        PollTurn {
            phase: PollPhase::Waiting,
            timeout_ms,
            waits_for_data,
            reselects,
            caught_up: false,
        }
    }
}

/// What a poll is told.
pub enum PollEvent {
    /// The start, or the end of a wait or a confirmation.
    Done,
    /// What a peek came to.
    Peeked(PollOutcome),
    /// The events with the values that could be read back.
    Reselected(Vec<Event>),
    /// The slot's lag in bytes, where the transport knows it.
    Measured(Option<u64>),
    /// The slot was advanced, and its lag in bytes was this.
    Advanced(u64),
}

/// What a poll asks for.
pub enum PollAction {
    /// Peek at this many changes, for this many milliseconds at most.
    Peek { window: usize, budget_ms: u64 },
    /// Confirm this place in the log.
    Confirm(u64),
    /// Read back the values that these events lack.
    Reselect(Vec<Event>),
    /// Measure the slot's lag.
    MeasureLag,
    /// Advance the idle slot to the end of the log.
    AdvanceSlot,
    /// Wait this many milliseconds.
    Sleep(u64),
    /// Return these events.
    Return(Vec<Event>),
}

/// What a [`PollAction`] asks for.
pub enum ActionView {
    Peek { window: usize, budget_ms: u64 },
    Confirm(u64),
    Reselect(Seq<EventView>),
    MeasureLag,
    AdvanceSlot,
    Sleep(u64),
    Return(Seq<EventView>),
}

impl View for PollAction {
    type V = ActionView;

    open spec fn view(&self) -> ActionView {
        match self {
            PollAction::Peek { window, budget_ms } => ActionView::Peek {
                window: *window,
                budget_ms: *budget_ms,
            },
            PollAction::Confirm(place) => ActionView::Confirm(*place),
            PollAction::Reselect(events) => ActionView::Reselect(event::event_views(events@)),
            PollAction::MeasureLag => ActionView::MeasureLag,
            PollAction::AdvanceSlot => ActionView::AdvanceSlot,
            PollAction::Sleep(wait) => ActionView::Sleep(*wait),
            PollAction::Return(events) => ActionView::Return(event::event_views(events@)),
        }
    }
}

/// Whether a poll in a phase may be told this.
pub open spec fn fitting(phase: PollPhase, told: PollEvent) -> bool {
    match told {
        PollEvent::Done => phase == PollPhase::Waiting || phase == PollPhase::Confirming,
        PollEvent::Peeked(_) => phase == PollPhase::Peeking,
        PollEvent::Reselected(_) => phase == PollPhase::Reselecting,
        PollEvent::Measured(_) => phase == PollPhase::Measuring,
        PollEvent::Advanced(_) => phase == PollPhase::Advancing,
    }
}

/// The next peek: as much as the window says, for as long as the budget allows.
pub open spec fn peek(handle: PostgresStreamHandle, turn: PollTurn, elapsed_ms: u64) -> (
    PollPhase,
    ActionView,
) {
    (
        PollPhase::Peeking,
        ActionView::Peek {
            window: handle.peek_window,
            budget_ms: polling::peek_budget(turn.waits_for_data, turn.timeout_ms, elapsed_ms),
        },
    )
}

/// What ends an attempt without events: the return of nothing, or a wait.
pub open spec fn ending(handle: PostgresStreamHandle, turn: PollTurn, elapsed_ms: u64) -> (
    PollPhase,
    ActionView,
) {
    match poll::next_step(false, turn.timeout_ms, elapsed_ms, handle.stream_poll_interval_ms) {
        AfterPoll::Return => (PollPhase::Over, ActionView::Return(Seq::empty())),
        AfterPoll::Sleep(wait) => (PollPhase::Waiting, ActionView::Sleep(wait)),
    }
}

/// What follows the measurement: an advance of an idle slot that is due, or the end.
pub open spec fn after_measuring(
    handle: PostgresStreamHandle,
    turn: PollTurn,
    elapsed_ms: u64,
    clock_ms: u64,
) -> (PollPhase, ActionView) {
    if handle.advance_due(turn.caught_up, clock_ms) {
        (PollPhase::Advancing, ActionView::AdvanceSlot)
    } else {
        ending(handle, turn, elapsed_ms)
    }
}

/// What follows an attempt without events: a measurement that is due, or what follows it.
pub open spec fn after_attempt(
    handle: PostgresStreamHandle,
    turn: PollTurn,
    elapsed_ms: u64,
    clock_ms: u64,
) -> (PollPhase, ActionView) {
    if handle.sample_due(clock_ms) {
        (PollPhase::Measuring, ActionView::MeasureLag)
    } else {
        after_measuring(handle, turn, elapsed_ms, clock_ms)
    }
}

/// Whether some events lack values.
pub open spec fn lacking(events: Seq<EventView>) -> bool {
    exists|i: int| 0 <= i < events.len() && (#[trigger] events[i]).unavailable_columns.len() > 0
}

/// What follows a peek, once its frames have been processed: the return of the events they
/// deliver, with omitted values read back where that is wanted; or the confirmation of a place
/// that they moved to without any event; or what follows an attempt without events.
pub open spec fn after_frames(
    handle: PostgresStreamHandle,
    turn: PollTurn,
    events: Seq<EventView>,
    moved: bool,
    elapsed_ms: u64,
    clock_ms: u64,
) -> (PollPhase, ActionView) {
    if events.len() > 0 {
        if turn.reselects && lacking(events) {
            (PollPhase::Reselecting, ActionView::Reselect(events))
        } else {
            (PollPhase::Over, ActionView::Return(events))
        }
    } else if moved {
        (PollPhase::Confirming, ActionView::Confirm(handle.stream.lsn_position))
    } else {
        after_attempt(handle, turn, elapsed_ms, clock_ms)
    }
}

fn events_lack(events: &Vec<Event>) -> (yes: bool)
    ensures
        yes == lacking(event::event_views(events@)),
{
    let ghost views = event::event_views(events@);
    let mut i: usize = 0;
    while i < events.len()
        invariant
            i <= events@.len(),
            views == event::event_views(events@),
            forall|k: int|
                0 <= k < i ==> (#[trigger] views[k]).unavailable_columns.len() == 0,
        decreases events.len() - i,
    {
        proof {
            assert(views[i as int] == events@[i as int]@);
            assert(views[i as int].unavailable_columns.len()
                == events@[i as int].unavailable_columns@.len());
        }
        if events[i].unavailable_columns.len() > 0 {
            return true;
        }
        i = i + 1;
    }
    false
}

impl PostgresStreamHandle {
    fn ask_peek(&self, turn: &mut PollTurn, elapsed_ms: u64) -> (action: PollAction)
        ensures
            (final(turn).phase, action@) == peek(*self, *old(turn), elapsed_ms),
            *final(turn) == (PollTurn { phase: final(turn).phase, ..*old(turn) }),
    {
        let budget_ms = polling::poll_budget_ms(turn.waits_for_data, turn.timeout_ms, elapsed_ms);
        turn.phase = PollPhase::Peeking;
        PollAction::Peek { window: self.peek_window, budget_ms }
    }

    fn ask_ending(&self, turn: &mut PollTurn, elapsed_ms: u64) -> (action: PollAction)
        ensures
            (final(turn).phase, action@) == ending(*self, *old(turn), elapsed_ms),
            *final(turn) == (PollTurn { phase: final(turn).phase, ..*old(turn) }),
    {
        match poll::after_poll(false, turn.timeout_ms, elapsed_ms, self.stream_poll_interval_ms) {
            AfterPoll::Return => {
                turn.phase = PollPhase::Over;
                let none: Vec<Event> = Vec::new();
                proof {
                    assert(event::event_views(none@) =~= Seq::empty());
                }
                PollAction::Return(none)
            },
            AfterPoll::Sleep(wait) => {
                turn.phase = PollPhase::Waiting;
                PollAction::Sleep(wait)
            },
        }
    }

    fn ask_after_measuring(&self, turn: &mut PollTurn, elapsed_ms: u64, clock_ms: u64) -> (action:
        PollAction)
        ensures
            (final(turn).phase, action@) == after_measuring(
                *self,
                *old(turn),
                elapsed_ms,
                clock_ms,
            ),
            *final(turn) == (PollTurn { phase: final(turn).phase, ..*old(turn) }),
    {
        if self.idle_advance_due(turn.caught_up, clock_ms) {
            turn.phase = PollPhase::Advancing;
            PollAction::AdvanceSlot
        } else {
            self.ask_ending(turn, elapsed_ms)
        }
    }

    fn ask_after_attempt(&self, turn: &mut PollTurn, elapsed_ms: u64, clock_ms: u64) -> (action:
        PollAction)
        ensures
            (final(turn).phase, action@) == after_attempt(*self, *old(turn), elapsed_ms, clock_ms),
            *final(turn) == (PollTurn { phase: final(turn).phase, ..*old(turn) }),
    {
        if self.slot_lag_sample_due(clock_ms) {
            turn.phase = PollPhase::Measuring;
            PollAction::MeasureLag
        } else {
            self.ask_after_measuring(turn, elapsed_ms, clock_ms)
        }
    }

    /// Takes in what a peek came to.
    fn take_peek(
        &mut self,
        turn: &mut PollTurn,
        outcome: PollOutcome,
        elapsed_ms: u64,
        now: u64,
        clock_ms: u64,
    ) -> (action: Result<PollAction, Error>)
        requires
            old(self).wf(),
        ensures
            final(self).wf(),
            ({
                let frames = match outcome {
                    PollOutcome::Data(frames) => frames@,
                    PollOutcome::TimedOut => Seq::empty(),
                };
                let ran = stream::run(old(self).settings(), old(self).progress(), frames, now);
                &&& final(self).progress() == ran.0
                &&& final(self).same_otherwise(
                    (PostgresStreamHandle {
                        peek_window: polling::next_window(
                            old(self).peek_window,
                            old(self).max_events_per_poll,
                            outcome is Data,
                        ),
                        last_idle_advance_at: if frames.len() > 0 {
                            Some(clock_ms)
                        } else {
                            old(self).last_idle_advance_at
                        },
                        ..*old(self)
                    }),
                )
                &&& match action {
                    Ok(action) => ran.2 && ({
                        let told = PollTurn { caught_up: outcome.caught_up(), ..*old(turn) };
                        &&& (final(turn).phase, action@) == after_frames(
                            *final(self),
                            told,
                            ran.1,
                            ran.0.position > old(self).progress().position,
                            elapsed_ms,
                            clock_ms,
                        )
                        &&& *final(turn) == (PollTurn { phase: final(turn).phase, ..told })
                    }),
                    Err(error) => !ran.2 && error is SourceError && error.text()
                        == stream::run_fault(
                        old(self).settings(),
                        old(self).progress(),
                        frames,
                        now,
                    ) && *final(turn) == (PollTurn {
                        caught_up: outcome.caught_up(),
                        ..*old(turn)
                    }),
                }
            }),
    {
        let ghost before = *self;
        self.adapt_window(&outcome);
        turn.caught_up = outcome.is_caught_up();
        let frames = outcome.into_rows();
        proof {
            assert(self.settings() == before.settings());
            assert(self.progress() == before.progress());
        }
        match self.take_frames(frames, now, clock_ms) {
            Err(error) => Err(error),
            Ok((events, confirm)) => {
                proof {
                    assert(event::event_views(events@).len() == events@.len());
                }
                if events.len() > 0 {
                    if turn.reselects && events_lack(&events) {
                        turn.phase = PollPhase::Reselecting;
                        Ok(PollAction::Reselect(events))
                    } else {
                        turn.phase = PollPhase::Over;
                        Ok(PollAction::Return(events))
                    }
                } else {
                    match confirm {
                        Some(place) => {
                            turn.phase = PollPhase::Confirming;
                            Ok(PollAction::Confirm(place))
                        },
                        None => Ok(self.ask_after_attempt(turn, elapsed_ms, clock_ms)),
                    }
                }
            },
        }
    }

    /// Goes on with a poll: takes in what it is told, and says what to do next. A stream that is
    /// not running is not polled, and frames that cannot be gone on from end the poll.
    ///
    /// `elapsed_ms` is the time since the poll started, `clock_ms` a clock that never goes back,
    /// and `now` the time of day.
    pub fn next_events(
        &mut self,
        turn: &mut PollTurn,
        told: PollEvent,
        elapsed_ms: u64,
        now: u64,
        clock_ms: u64,
    ) -> (action: Result<PollAction, Error>)
        requires
            old(self).wf(),
            fitting(old(turn).phase, told),
        ensures
            final(self).wf(),
            *final(turn) == (PollTurn {
                phase: final(turn).phase,
                caught_up: final(turn).caught_up,
                ..*old(turn)
            }),
            !(told is Peeked) ==> final(turn).caught_up == old(turn).caught_up,
            match told {
                PollEvent::Done => *final(self) == *old(self) && (if old(turn).phase
                    == PollPhase::Confirming {
                    action matches Ok(action) && (final(turn).phase, action@) == after_attempt(
                        *old(self),
                        *old(turn),
                        elapsed_ms,
                        clock_ms,
                    )
                } else if old(self).stream.replication_status == StreamState::Streaming {
                    action matches Ok(action) && (final(turn).phase, action@) == peek(
                        *old(self),
                        *old(turn),
                        elapsed_ms,
                    )
                } else {
                    action matches Err(error) && error is StateError && error.text()
                        == polling::NOT_RUNNING@ && *final(turn) == *old(turn)
                }),
                PollEvent::Peeked(outcome) => {
                    let frames = match outcome {
                        PollOutcome::Data(frames) => frames@,
                        PollOutcome::TimedOut => Seq::empty(),
                    };
                    let ran = stream::run(
                        old(self).settings(),
                        old(self).progress(),
                        frames,
                        now,
                    );
                    &&& final(self).progress() == ran.0
                    &&& final(self).same_otherwise(
                        (PostgresStreamHandle {
                            peek_window: polling::next_window(
                                old(self).peek_window,
                                old(self).max_events_per_poll,
                                outcome is Data,
                            ),
                            last_idle_advance_at: if frames.len() > 0 {
                                Some(clock_ms)
                            } else {
                                old(self).last_idle_advance_at
                            },
                            ..*old(self)
                        }),
                    )
                    &&& match action {
                        Ok(action) => ran.2 && (final(turn).phase, action@) == after_frames(
                            *final(self),
                            (PollTurn { caught_up: outcome.caught_up(), ..*old(turn) }),
                            ran.1,
                            ran.0.position > old(self).progress().position,
                            elapsed_ms,
                            clock_ms,
                        ) && final(turn).caught_up == outcome.caught_up(),
                        Err(error) => !ran.2 && error is SourceError && error.text()
                            == stream::run_fault(
                            old(self).settings(),
                            old(self).progress(),
                            frames,
                            now,
                        ) && *final(turn) == (PollTurn {
                            caught_up: outcome.caught_up(),
                            ..*old(turn)
                        }),
                    }
                },
                PollEvent::Reselected(events) => *final(self) == *old(self) && (
                action matches Ok(action) && action@ == ActionView::Return(
                    event::event_views(events@),
                ) && final(turn).phase == PollPhase::Over),
                PollEvent::Measured(lag) => *final(self) == (match lag {
                    Some(lag) => PostgresStreamHandle {
                        last_slot_lag_bytes: lag,
                        last_slot_lag_at: Some(clock_ms),
                        ..*old(self)
                    },
                    None => *old(self),
                }) && (action matches Ok(action) && (final(turn).phase, action@)
                    == after_measuring(*final(self), *old(turn), elapsed_ms, clock_ms)),
                PollEvent::Advanced(lag) => *final(self) == (PostgresStreamHandle {
                    last_slot_lag_bytes: lag,
                    last_slot_lag_at: Some(clock_ms),
                    last_idle_advance_at: Some(clock_ms),
                    ..*old(self)
                }) && (action matches Ok(action) && (final(turn).phase, action@) == ending(
                    *final(self),
                    *old(turn),
                    elapsed_ms,
                )),
            },
    {
        match told {
            PollEvent::Done => match turn.phase {
                PollPhase::Confirming => Ok(self.ask_after_attempt(turn, elapsed_ms, clock_ms)),
                _ => match self.begin_poll() {
                    Ok(_) => Ok(self.ask_peek(turn, elapsed_ms)),
                    Err(error) => Err(error),
                },
            },
            PollEvent::Peeked(outcome) => self.take_peek(turn, outcome, elapsed_ms, now, clock_ms),
            PollEvent::Reselected(events) => {
                turn.phase = PollPhase::Over;
                Ok(PollAction::Return(events))
            },
            PollEvent::Measured(lag) => {
                match lag {
                    Some(lag) => {
                        self.slot_lag_measured(lag, clock_ms);
                    },
                    None => {},
                }
                Ok(self.ask_after_measuring(turn, elapsed_ms, clock_ms))
            },
            PollEvent::Advanced(lag) => {
                self.idle_advanced(lag, clock_ms);
                Ok(self.ask_ending(turn, elapsed_ms))
            },
        }
    }
}

/// An idle slot is advanced only after a peek that completed and found nothing: what was not read
/// is never discarded.
pub proof fn unread_changes_are_never_discarded(
    handle: PostgresStreamHandle,
    turn: PollTurn,
    events: Seq<EventView>,
    moved: bool,
    elapsed_ms: u64,
    clock_ms: u64,
)
    requires
        !turn.caught_up,
    ensures
        after_frames(handle, turn, events, moved, elapsed_ms, clock_ms).1
            != ActionView::AdvanceSlot,
        after_attempt(handle, turn, elapsed_ms, clock_ms).1 != ActionView::AdvanceSlot,
        after_measuring(handle, turn, elapsed_ms, clock_ms).1 != ActionView::AdvanceSlot,
{
}

/// A batch without events that moved the stream on is confirmed, so that the next peek does not
/// give it again.
pub proof fn filtered_batch_is_confirmed(
    handle: PostgresStreamHandle,
    turn: PollTurn,
    elapsed_ms: u64,
    clock_ms: u64,
)
    ensures
        after_frames(handle, turn, Seq::empty(), true, elapsed_ms, clock_ms) == (
            PollPhase::Confirming,
            ActionView::Confirm(handle.stream.lsn_position),
        ),
{
}

} // verus!
