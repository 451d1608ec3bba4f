//! What holds of the incremental snapshot over any run of calls.
//!
//! A run is a list of driver states with the call that led from each to the next. What the
//! consumer has been handed is compared with a ledger that is kept from the calls' inputs alone.
use vstd::prelude::*;
use crate::event;
use crate::event::{Event, EventView};
use crate::incremental::driver;
use crate::incremental::driver::{CollectStep, DriveStep, IncrementalSnapshotDriver, Phase};
use crate::incremental::fingerprint;
use crate::incremental::laws;
use crate::incremental::repair;
use crate::incremental::row_index;
use crate::incremental::state;
use crate::incremental::steps;
use crate::incremental::table::{ChunkRow, EventMark, StreamPosition};
use crate::json;
use crate::json::Json;
use crate::text;

verus! {

/// A call of the driver, with what it was given and what it gave back.
pub enum Act<P> {
    /// `drive`; where it said to pass the stream through, also the live events that were taken.
    Drove { timeout_ms: u64, step: DriveStep, passed: Seq<EventView> },
    /// `chunk_read`.
    Read { table_idx: usize, low: P, rows: Seq<ChunkRow>, high: P, now: u64 },
    /// `collect`.
    Looked { batch: Seq<Event>, marks: Seq<Option<EventMark<P>>>, outcome: CollectStep },
    /// `collect_quiet`.
    Quiet { position: P, outcome: CollectStep },
    /// `set_paused`.
    Paused { paused: bool },
    /// `count_delivered`.
    Counted { count: usize },
}

/// Whether a call leads from one state to another.
pub open spec fn leads<P: StreamPosition>(
    before: IncrementalSnapshotDriver<P>,
    act: Act<P>,
    after: IncrementalSnapshotDriver<P>,
) -> bool {
    &&& before.wf()
    &&& after.wf()
    &&& match act {
        Act::Drove { timeout_ms, step, passed } => {
            &&& steps::drove(before, timeout_ms, step, after)
            &&& !(step is PassThrough) ==> passed.len() == 0
        },
        Act::Read { table_idx, low, rows, high, now } => {
            &&& before.phase is ChunkPrepare
            &&& table_idx < before.tables@.len()
            &&& steps::chunk_taken(before, table_idx, low, rows, high, now, after)
        },
        Act::Looked { batch: events, marks, outcome: step } => {
            &&& before.phase is ChunkCollect
            &&& events.len() == marks.len()
            &&& steps::looked(before, events, marks, step, after)
        },
        Act::Quiet { position, outcome: step } => {
            &&& before.phase is ChunkCollect
            &&& steps::quieted(before, position, step, after)
        },
        Act::Paused { paused } => steps::pause_set(before, paused, after),
        Act::Counted { count } => after == (IncrementalSnapshotDriver {
            events_emitted: after.events_emitted,
            ..before
        }),
    }
}

/// Whether the calls lead through the states, in order.
pub open spec fn is_run<P: StreamPosition>(
    states: Seq<IncrementalSnapshotDriver<P>>,
    acts: Seq<Act<P>>,
) -> bool {
    &&& states.len() == acts.len() + 1
    &&& states[0].wf()
    &&& forall|i: int|
        0 <= i < acts.len() ==> leads(states[i], #[trigger] acts[i], states[i + 1])
}

/// The live events that a call took from the stream, as the driver passes them on: repaired where
/// they superseded a chunk row.
pub open spec fn seen<P>(before: IncrementalSnapshotDriver<P>, act: Act<P>) -> Seq<EventView> {
    match act {
        Act::Drove { step: DriveStep::PassThrough { .. }, passed, .. } => passed,
        Act::Looked { batch: events, marks, .. } => match before.phase {
            Phase::ChunkCollect { table_idx, chunk_rows, chunk_index_by_key, override_pks, .. } => {
                let spec = before.tables@[table_idx as int].spec;
                driver::collected(
                    driver::chunk_view(chunk_rows@),
                    row_index::places(chunk_index_by_key),
                    text::texts(override_pks@),
                    event::event_views(events),
                    marks,
                    spec.schema@,
                    spec.name@,
                ).events
            },
            _ => Seq::empty(),
        },
        _ => Seq::empty(),
    }
}

/// The live events that a call took from the stream, as they came.
pub open spec fn came<P>(act: Act<P>) -> Seq<EventView> {
    match act {
        Act::Drove { step: DriveStep::PassThrough { .. }, passed, .. } => passed,
        Act::Looked { batch: events, .. } => event::event_views(events),
        _ => Seq::empty(),
    }
}

/// The live events that a call handed to the consumer.
pub open spec fn live_out<P>(before: IncrementalSnapshotDriver<P>, act: Act<P>) -> Seq<EventView> {
    match act {
        Act::Drove { step: DriveStep::PassThrough { .. }, passed, .. } => passed,
        Act::Drove { step: DriveStep::Deliver(batch), .. } => if steps::settled_phase(
            before.phase,
        ) is ChunkEmit {
            Seq::empty()
        } else {
            event::event_views(batch@)
        },
        Act::Looked { outcome: CollectStep::Deliver(head), .. } => event::event_views(head@),
        Act::Quiet { outcome: CollectStep::Deliver(head), .. } => event::event_views(head@),
        _ => Seq::empty(),
    }
}

/// The chunk rows that a call handed to the consumer.
pub open spec fn rows_out<P>(before: IncrementalSnapshotDriver<P>, act: Act<P>) -> Seq<EventView> {
    match act {
        Act::Drove { step: DriveStep::Deliver(batch), .. } => if steps::settled_phase(
            before.phase,
        ) is ChunkEmit {
            event::event_views(batch@)
        } else {
            Seq::empty()
        },
        _ => Seq::empty(),
    }
}

/// The live events of a run, in the order in which they came, as the driver passes them on.
pub open spec fn all_seen<P>(
    states: Seq<IncrementalSnapshotDriver<P>>,
    acts: Seq<Act<P>>,
) -> Seq<EventView>
    decreases acts.len(),
{
    if acts.len() == 0 {
        Seq::empty()
    } else {
        all_seen(states.drop_last(), acts.drop_last()) + seen(states[acts.len() - 1], acts.last())
    }
}

/// The live events of a run, as they came.
pub open spec fn all_came<P>(acts: Seq<Act<P>>) -> Seq<EventView>
    decreases acts.len(),
{
    if acts.len() == 0 {
        Seq::empty()
    } else {
        all_came(acts.drop_last()) + came(acts.last())
    }
}

/// The live events that a run handed out, in order.
pub open spec fn all_live<P>(
    states: Seq<IncrementalSnapshotDriver<P>>,
    acts: Seq<Act<P>>,
) -> Seq<EventView>
    decreases acts.len(),
{
    if acts.len() == 0 {
        Seq::empty()
    } else {
        all_live(states.drop_last(), acts.drop_last()) + live_out(
            states[acts.len() - 1],
            acts.last(),
        )
    }
}

/// The chunk rows that a run handed out, in order.
pub open spec fn all_rows<P>(
    states: Seq<IncrementalSnapshotDriver<P>>,
    acts: Seq<Act<P>>,
) -> Seq<EventView>
    decreases acts.len(),
{
    if acts.len() == 0 {
        Seq::empty()
    } else {
        all_rows(states.drop_last(), acts.drop_last()) + rows_out(
            states[acts.len() - 1],
            acts.last(),
        )
    }
}

/// A run without its last call is a run.
pub(crate) proof fn lemma_shorter<P: StreamPosition>(
    states: Seq<IncrementalSnapshotDriver<P>>,
    acts: Seq<Act<P>>,
)
    requires
        is_run(states, acts),
        acts.len() > 0,
    ensures
        is_run(states.drop_last(), acts.drop_last()),
        leads(states[acts.len() - 1], acts.last(), states.last()),
        states.drop_last().last() == states[acts.len() - 1],
        states.drop_last()[0] == states[0],
{
    let fewer = acts.drop_last();
    assert forall|i: int| 0 <= i < fewer.len() implies leads(
        states.drop_last()[i],
        #[trigger] fewer[i],
        states.drop_last()[i + 1],
    ) by {
        assert(fewer[i] == acts[i]);
    }
    assert(acts[acts.len() - 1] == acts.last());
}

/// Live events come out once each and in log order, over any run: what has been handed out,
/// followed by what is held back, is what was held back at the start followed by every live event
/// in the order in which it came.
pub proof fn live_events_keep_log_order<P: StreamPosition>(
    states: Seq<IncrementalSnapshotDriver<P>>,
    acts: Seq<Act<P>>,
)
    requires
        is_run(states, acts),
    ensures
        all_live(states, acts) + event::event_views(states.last().deferred@) == event::event_views(
            states[0].deferred@,
        ) + all_seen(states, acts),
    decreases acts.len(),
{
    if acts.len() == 0 {
        assert(states.last() == states[0]);
        assert(all_live(states, acts) + event::event_views(states.last().deferred@)
            =~= event::event_views(states[0].deferred@) + all_seen(states, acts));
    } else {
        lemma_shorter(states, acts);
        live_events_keep_log_order(states.drop_last(), acts.drop_last());
        let before = states[acts.len() - 1];
        let after = states.last();
        let act = acts.last();
        lemma_one_act_keeps_order(before, act, after);
        let out = all_live(states.drop_last(), acts.drop_last());
        let start = event::event_views(states[0].deferred@);
        let earlier = all_seen(states.drop_last(), acts.drop_last());
        let held = event::event_views(before.deferred@);
        let left = event::event_views(after.deferred@);
        assert((out + live_out(before, act)) + left =~= out + (live_out(before, act) + left));
        assert(out + (held + seen(before, act)) =~= (out + held) + seen(before, act));
        assert((start + earlier) + seen(before, act) =~= start + (earlier + seen(before, act)));
    }
}

proof fn lemma_one_act_keeps_order<P: StreamPosition>(
    before: IncrementalSnapshotDriver<P>,
    act: Act<P>,
    after: IncrementalSnapshotDriver<P>,
)
    requires
        leads(before, act, after),
    ensures
        live_out(before, act) + event::event_views(after.deferred@) == event::event_views(
            before.deferred@,
        ) + seen(before, act),
{
    let held = event::event_views(before.deferred@);
    let left = event::event_views(after.deferred@);
    let out = live_out(before, act);
    let all = seen(before, act);
    match act {
        Act::Drove { timeout_ms, step, passed } => {
            match steps::settled_phase(before.phase) {
                Phase::ChunkEmit { .. } => {
                    assert(out + left =~= held + all);
                },
                Phase::ChunkCollect { .. } => {
                    assert(out + left =~= held + all);
                },
                settled => {
                    if before.deferred@.len() > 0 {
                        let n = driver::batch_size(before.deferred@);
                        assert(out =~= held.take(n));
                        assert(left =~= held.skip(n));
                        assert(out + left =~= held + all);
                    } else {
                        assert(out + left =~= held + all);
                    }
                },
            }
        },
        Act::Looked { batch: events, marks, outcome: step } => {
            let split = if before.deferred@.len() > 0 {
                0
            } else {
                driver::first_after(marks)
            };
            assert(all.len() == events.len());
            laws::log_order_is_kept(held, all, split);
            if step is Deliver {
                assert(out == all.take(split));
            } else {
                assert(split == 0);
                assert(out =~= all.take(0));
            }
        },
        _ => {
            assert(out + left =~= held + all);
        },
    }
}

/// Passing a live event on changes nothing of it but the values that it left out, so that each
/// event of a run is handed out as it came or repaired.
pub proof fn live_events_are_those_that_came<P: StreamPosition>(
    states: Seq<IncrementalSnapshotDriver<P>>,
    acts: Seq<Act<P>>,
)
    requires
        is_run(states, acts),
    ensures
        all_seen(states, acts).len() == all_came(acts).len(),
        forall|i: int|
            0 <= i < all_came(acts).len() ==> passed_on(
                all_came(acts)[i],
                #[trigger] all_seen(states, acts)[i],
            ),
    decreases acts.len(),
{
    if acts.len() > 0 {
        lemma_shorter(states, acts);
        live_events_are_those_that_came(states.drop_last(), acts.drop_last());
        let before = states[acts.len() - 1];
        let act = acts.last();
        if let Act::Looked { batch: events, marks, outcome: step } = act {
            if let Phase::ChunkCollect {
                table_idx,
                chunk_rows,
                chunk_index_by_key,
                override_pks,
                ..
            } = before.phase {
                let spec = before.tables@[table_idx as int].spec;
                lemma_collected_passes_on(
                    driver::chunk_view(chunk_rows@),
                    row_index::places(chunk_index_by_key),
                    text::texts(override_pks@),
                    event::event_views(events),
                    marks,
                    spec.schema@,
                    spec.name@,
                );
            }
        }
        let n = all_came(acts.drop_last()).len();
        assert forall|i: int| 0 <= i < all_came(acts).len() implies passed_on(
            all_came(acts)[i],
            #[trigger] all_seen(states, acts)[i],
        ) by {
            if i < n {
                assert(all_seen(states, acts)[i] == all_seen(
                    states.drop_last(),
                    acts.drop_last(),
                )[i]);
            } else {
                assert(all_seen(states, acts)[i] == seen(before, act)[i - n]);
                assert(all_came(acts)[i] == came(act)[i - n]);
            }
        }
    }
}

/// Whether the second event is the first, as it came or repaired from some image of its row.
pub open spec fn passed_on(one: EventView, other: EventView) -> bool {
    ||| other == one
    ||| exists|shadow: Map<Seq<char>, Json>| other == #[trigger] repair::repaired(one, shadow)
}

proof fn lemma_collected_passes_on<P>(
    chunk: Seq<(Seq<char>, EventView)>,
    index: Map<Seq<char>, usize>,
    overrides: Seq<Seq<char>>,
    events: Seq<EventView>,
    marks: Seq<Option<EventMark<P>>>,
    schema: Seq<char>,
    name: Seq<char>,
)
    requires
        events.len() == marks.len(),
    ensures
        ({
            let all = driver::collected(chunk, index, overrides, events, marks, schema, name);
            &&& all.events.len() == events.len()
            &&& forall|i: int|
                0 <= i < events.len() ==> passed_on(events[i], #[trigger] all.events[i])
        }),
    decreases events.len(),
{
    if events.len() > 0 {
        lemma_collected_passes_on(
            chunk,
            index,
            overrides,
            events.drop_last(),
            marks.drop_last(),
            schema,
            name,
        );
        let before = driver::collected(
            chunk,
            index,
            overrides,
            events.drop_last(),
            marks.drop_last(),
            schema,
            name,
        );
        let all = driver::collected(chunk, index, overrides, events, marks, schema, name);
        let n = events.len() - 1;
        assert(passed_on(events[n], all.events[n])) by {
            if driver::supersedes(events.last(), marks.last(), schema, name) {
                let one = driver::absorbed(before.chunk, index, before.overrides, events.last());
                assert(one.events.len() == 1);
                assert(all.events[n] == one.events[0]);
            }
        }
        assert forall|i: int| 0 <= i < events.len() implies passed_on(
            events[i],
            #[trigger] all.events[i],
        ) by {
            if i < n {
                assert(all.events[i] == before.events[i]);
                assert(events.drop_last()[i] == events[i]);
            }
        }
    }
}

/// Another chunk is read, and the stream passes through, only once everything that was held back
/// has been handed out.
pub proof fn held_back_events_go_out_first<P>(
    before: IncrementalSnapshotDriver<P>,
    timeout_ms: u64,
    step: DriveStep,
    after: IncrementalSnapshotDriver<P>,
)
    requires
        steps::drove(before, timeout_ms, step, after),
        step is ReadChunk || step is PassThrough,
    ensures
        before.deferred@.len() == 0,
        after.deferred@.len() == 0,
{
}

/// When the driver asks for another chunk, or passes the stream through, every live event that came
/// before has been handed out, in log order.
pub proof fn nothing_is_owed_before_the_next_chunk<P: StreamPosition>(
    states: Seq<IncrementalSnapshotDriver<P>>,
    acts: Seq<Act<P>>,
)
    requires
        is_run(states, acts),
        acts.len() > 0,
        acts.last() matches Act::Drove { step, .. } && (step is ReadChunk || step is PassThrough),
    ensures
        all_live(states, acts) == event::event_views(states[0].deferred@) + all_seen(states, acts),
{
    live_events_keep_log_order(states, acts);
    lemma_shorter(states, acts);
    if let Act::Drove { timeout_ms, step, passed } = acts.last() {
        held_back_events_go_out_first(states[acts.len() - 1], timeout_ms, step, states.last());
    }
    assert(all_live(states, acts) + event::event_views(states.last().deferred@) =~= all_live(
        states,
        acts,
    ));
}

/// A position becomes durable only when no live event is owed: over any run, the driver has a
/// durable record exactly where everything that came has been handed out.
pub proof fn position_waits_for_what_is_owed<P: StreamPosition>(
    states: Seq<IncrementalSnapshotDriver<P>>,
    acts: Seq<Act<P>>,
)
    requires
        is_run(states, acts),
    ensures
        states.last().deferred@.len() == 0 <==> all_live(states, acts).len()
            == states[0].deferred@.len() + all_came(acts).len(),
{
    live_events_keep_log_order(states, acts);
    live_events_are_those_that_came(states, acts);
    let out = all_live(states, acts);
    let left = event::event_views(states.last().deferred@);
    let start = event::event_views(states[0].deferred@);
    assert((out + left).len() == out.len() + left.len());
    assert((start + all_seen(states, acts)).len() == start.len() + all_seen(states, acts).len());
}

// Chunk rows

/// A chunk that has been read and not merged yet.
pub struct OpenChunk<P> {
    pub table_idx: int,
    /// The rows as they were read, each under its identity.
    pub chunk: Seq<(Seq<char>, EventView)>,
    /// The identities that a live event inside the chunk's bracket superseded.
    pub noted: Set<Seq<char>>,
    pub high: P,
    pub schema: Seq<char>,
    pub name: Seq<char>,
    /// The key of the last row.
    pub end: Seq<Json>,
}

/// A chunk that has been merged: its end, and how many rows are due up to and with it.
pub struct ChunkEnd {
    pub table_idx: int,
    pub cursor: Seq<Json>,
    pub due: nat,
}

/// What is owed to the consumer, from the calls' inputs alone.
pub struct Ledger<P> {
    pub open: Option<OpenChunk<P>>,
    /// The rows that are due so far, in order.
    pub due: Seq<EventView>,
    pub ends: Seq<ChunkEnd>,
}

/// The rows of a chunk whose identity was not noted, in order.
pub open spec fn kept(chunk: Seq<(Seq<char>, EventView)>, noted: Set<Seq<char>>) -> Seq<EventView>
    decreases chunk.len(),
{
    if chunk.len() == 0 {
        Seq::empty()
    } else {
        let before = kept(chunk.drop_last(), noted);
        if noted.contains(chunk.last().0) {
            before
        } else {
            before.push(chunk.last().1)
        }
    }
}

/// A row of a chunk is due exactly where its identity was not noted.
pub proof fn row_is_due_unless_superseded(
    chunk: Seq<(Seq<char>, EventView)>,
    noted: Set<Seq<char>>,
)
    ensures
        forall|i: int|
            0 <= i < chunk.len() && !noted.contains((#[trigger] chunk[i]).0) ==> kept(
                chunk,
                noted,
            ).contains(chunk[i].1),
        forall|k: int|
            0 <= k < kept(chunk, noted).len() ==> exists|i: int|
                0 <= i < chunk.len() && (#[trigger] chunk[i]).1 == #[trigger] kept(chunk, noted)[k]
                    && !noted.contains(chunk[i].0),
        kept(chunk, noted).len() <= chunk.len(),
        (forall|i: int| 0 <= i < chunk.len() ==> !noted.contains((#[trigger] chunk[i]).0)) ==> kept(
            chunk,
            noted,
        ).len() == chunk.len(),
    decreases chunk.len(),
{
    if chunk.len() > 0 {
        let fewer = chunk.drop_last();
        let before = kept(fewer, noted);
        let all = kept(chunk, noted);
        let n = chunk.len() - 1;
        row_is_due_unless_superseded(fewer, noted);
        assert forall|i: int| 0 <= i < chunk.len() && !noted.contains(
            (#[trigger] chunk[i]).0,
        ) implies all.contains(chunk[i].1) by {
            if i < n {
                assert(fewer[i] == chunk[i]);
                let k = choose|k: int| 0 <= k < before.len() && before[k] == chunk[i].1;
                assert(all[k] == chunk[i].1);
            } else {
                assert(all[before.len() as int] == chunk[i].1);
            }
        }
        assert forall|k: int| 0 <= k < all.len() implies exists|i: int|
            0 <= i < chunk.len() && (#[trigger] chunk[i]).1 == #[trigger] all[k] && !noted.contains(
                chunk[i].0,
            ) by {
            if k < before.len() {
                assert(all[k] == before[k]);
                let i = choose|i: int|
                    0 <= i < fewer.len() && (#[trigger] fewer[i]).1 == before[k] && !noted.contains(
                        fewer[i].0,
                    );
                assert(chunk[i] == fewer[i]);
            } else {
                assert(chunk[n].1 == all[k]);
            }
        }
        if forall|i: int| 0 <= i < chunk.len() ==> !noted.contains((#[trigger] chunk[i]).0) {
            assert forall|i: int| 0 <= i < fewer.len() implies !noted.contains(
                (#[trigger] fewer[i]).0,
            ) by {
                assert(fewer[i] == chunk[i]);
            }
            assert(!noted.contains(chunk[n].0));
        }
    }
}

/// The identities that some events superseded in the chunk of a table.
pub open spec fn superseded<P>(
    events: Seq<EventView>,
    marks: Seq<Option<EventMark<P>>>,
    schema: Seq<char>,
    name: Seq<char>,
) -> Set<Seq<char>> {
    Set::new(
        |id: Seq<char>|
            exists|i: int|
                0 <= i < events.len() && driver::supersedes(
                    #[trigger] events[i],
                    marks[i],
                    schema,
                    name,
                ) && fingerprint::event_identity(events[i]) == Some(id),
    )
}

/// The ledger once the open chunk is merged: the rows that nothing superseded are due.
pub open spec fn closed<P>(ledger: Ledger<P>, open: OpenChunk<P>) -> Ledger<P> {
    let due = ledger.due + kept(open.chunk, open.noted);
    Ledger {
        open: None,
        due,
        ends: ledger.ends.push(
            ChunkEnd { table_idx: open.table_idx, cursor: open.end, due: due.len() },
        ),
    }
}

/// The ledger after a call.
pub open spec fn entered<P: StreamPosition>(
    ledger: Ledger<P>,
    before: IncrementalSnapshotDriver<P>,
    act: Act<P>,
) -> Ledger<P> {
    match (act, ledger.open) {
        (Act::Read { table_idx, low, rows, high, now }, _) => if rows.len() == 0 {
            ledger
        } else {
            let table = before.tables@[table_idx as int];
            Ledger {
                open: Some(
                    OpenChunk {
                        table_idx: table_idx as int,
                        chunk: driver::chunk_of(
                            rows,
                            table.spec,
                            before.source_name@,
                            before.snapshot_id@,
                            before.generation,
                            table.chunks_emitted,
                            now,
                        ),
                        noted: Set::empty(),
                        high,
                        schema: table.spec.schema@,
                        name: table.spec.name@,
                        end: json::jsons(rows.last().cursor@),
                    },
                ),
                ..ledger
            }
        },
        (Act::Looked { batch: events, marks, .. }, Some(open)) => {
            let more = OpenChunk {
                noted: open.noted.union(
                    superseded(event::event_views(events), marks, open.schema, open.name),
                ),
                ..open
            };
            if driver::reaches(marks, open.high) {
                closed(ledger, more)
            } else {
                Ledger { open: Some(more), ..ledger }
            }
        },
        (Act::Quiet { position, .. }, Some(open)) => if position.rank() >= open.high.rank() {
            closed(ledger, open)
        } else {
            ledger
        },
        _ => ledger,
    }
}

/// The ledger of a run that starts with no chunk open.
pub open spec fn ledger<P: StreamPosition>(
    states: Seq<IncrementalSnapshotDriver<P>>,
    acts: Seq<Act<P>>,
) -> Ledger<P>
    decreases acts.len(),
{
    if acts.len() == 0 {
        Ledger { open: None, due: Seq::empty(), ends: Seq::empty() }
    } else {
        entered(
            ledger(states.drop_last(), acts.drop_last()),
            states[acts.len() - 1],
            acts.last(),
        )
    }
}

/// Whether no chunk is open in the driver, as in a new one.
pub open spec fn at_rest<P>(d: IncrementalSnapshotDriver<P>) -> bool {
    d.phase is ChunkPrepare || d.phase is Done
}

/// The rows that await delivery.
pub open spec fn waiting<P>(d: IncrementalSnapshotDriver<P>) -> Seq<EventView> {
    match d.phase {
        Phase::ChunkEmit { events, .. } => event::event_views(events@),
        _ => Seq::empty(),
    }
}

/// Whether the driver's open chunk is the ledger's: the same rows but for superseded ones, and the
/// same identities noted.
pub open spec fn same_chunk<P>(
    open: OpenChunk<P>,
    chunk: Seq<(Seq<char>, EventView)>,
    overrides: Seq<Seq<char>>,
) -> bool {
    &&& chunk.len() == open.chunk.len()
    &&& forall|i: int| 0 <= i < chunk.len() ==> (#[trigger] chunk[i]).0 == open.chunk[i].0
    &&& forall|i: int|
        0 <= i < chunk.len() && !open.noted.contains(open.chunk[i].0) ==> #[trigger] chunk[i]
            == open.chunk[i]
    &&& forall|id: Seq<char>| #[trigger] overrides.contains(id) <==> open.noted.contains(id)
}

/// Whether a driver stands where the ledger says.
pub open spec fn agrees<P>(
    ledger: Ledger<P>,
    delivered: Seq<EventView>,
    d: IncrementalSnapshotDriver<P>,
) -> bool {
    &&& delivered + waiting(d) == ledger.due
    &&& forall|k: int|
        0 <= k < ledger.ends.len() ==> (#[trigger] ledger.ends[k]).due <= ledger.due.len()
    &&& match d.phase {
        Phase::ChunkCollect {
            table_idx,
            high_watermark,
            chunk_rows,
            override_pks,
            next_cursor,
            ..
        } => ledger.open matches Some(open) && {
            &&& open.table_idx == table_idx
            &&& open.high == high_watermark
            &&& open.schema == d.tables@[table_idx as int].spec.schema@
            &&& open.name == d.tables@[table_idx as int].spec.name@
            &&& open.end == json::jsons(next_cursor@)
            &&& same_chunk(open, driver::chunk_view(chunk_rows@), text::texts(override_pks@))
        },
        Phase::ChunkEmit { table_idx, next_cursor, .. } => {
            &&& ledger.open is None
            &&& ledger.ends.len() > 0
            &&& ledger.ends.last() == ChunkEnd {
                table_idx: table_idx as int,
                cursor: json::jsons(next_cursor@),
                due: ledger.due.len(),
            }
        },
        _ => ledger.open is None,
    }
}

proof fn lemma_collected_tracks<P>(
    open: OpenChunk<P>,
    chunk: Seq<(Seq<char>, EventView)>,
    index: Map<Seq<char>, usize>,
    overrides: Seq<Seq<char>>,
    events: Seq<EventView>,
    marks: Seq<Option<EventMark<P>>>,
)
    requires
        events.len() == marks.len(),
        driver::index_fits(chunk, index),
        same_chunk(open, chunk, overrides),
    ensures
        ({
            let all = driver::collected(
                chunk,
                index,
                overrides,
                events,
                marks,
                open.schema,
                open.name,
            );
            let more = OpenChunk {
                noted: open.noted.union(superseded(events, marks, open.schema, open.name)),
                ..open
            };
            &&& same_chunk(more, all.chunk, all.overrides)
            &&& driver::index_fits(all.chunk, index)
        }),
    decreases events.len(),
{
    let noted = superseded(events, marks, open.schema, open.name);
    let more = OpenChunk { noted: open.noted.union(noted), ..open };
    let all = driver::collected(chunk, index, overrides, events, marks, open.schema, open.name);
    laws::collecting_keeps_the_chunk(
        chunk,
        index,
        overrides,
        events,
        marks,
        open.schema,
        open.name,
    );
    assert forall|id: Seq<char>| #[trigger] all.overrides.contains(id) <==> more.noted.contains(
        id,
    ) by {
        if all.overrides.contains(id) {
            laws::noted_row_was_superseded(
                chunk,
                index,
                overrides,
                events,
                marks,
                open.schema,
                open.name,
                id,
            );
        }
        if noted.contains(id) {
            let i = choose|i: int|
                0 <= i < events.len() && driver::supersedes(
                    #[trigger] events[i],
                    marks[i],
                    open.schema,
                    open.name,
                ) && fingerprint::event_identity(events[i]) == Some(id);
            laws::superseding_event_is_noted(
                chunk,
                index,
                overrides,
                events,
                marks,
                open.schema,
                open.name,
                i,
                id,
            );
        }
        if open.noted.contains(id) {
            assert(overrides.contains(id));
        }
    }
    lemma_unnoted_rows_stay(chunk, index, overrides, events, marks, open.schema, open.name);
    assert forall|i: int|
        0 <= i < all.chunk.len() && !more.noted.contains(
            open.chunk[i].0,
        ) implies #[trigger] all.chunk[i] == open.chunk[i] by {
        assert(chunk[i].0 == open.chunk[i].0);
        assert(!all.overrides.contains(chunk[i].0));
        assert(chunk[i] == open.chunk[i]);
    }
    assert forall|i: int| 0 <= i < all.chunk.len() implies (#[trigger] all.chunk[i]).0
        == open.chunk[i].0 by {
        assert(chunk[i].0 == open.chunk[i].0);
    }
}

proof fn lemma_unnoted_rows_stay<P>(
    chunk: Seq<(Seq<char>, EventView)>,
    index: Map<Seq<char>, usize>,
    overrides: Seq<Seq<char>>,
    events: Seq<EventView>,
    marks: Seq<Option<EventMark<P>>>,
    schema: Seq<char>,
    name: Seq<char>,
)
    requires
        events.len() == marks.len(),
        driver::index_fits(chunk, index),
    ensures
        ({
            let all = driver::collected(chunk, index, overrides, events, marks, schema, name);
            forall|i: int|
                0 <= i < chunk.len() && !all.overrides.contains(chunk[i].0)
                    ==> #[trigger] all.chunk[i] == chunk[i]
        }),
    decreases events.len(),
{
    if events.len() > 0 {
        let fewer = events.drop_last();
        let less = marks.drop_last();
        lemma_unnoted_rows_stay(chunk, index, overrides, fewer, less, schema, name);
        laws::collecting_keeps_the_chunk(chunk, index, overrides, fewer, less, schema, name);
        let before = driver::collected(chunk, index, overrides, fewer, less, schema, name);
        let all = driver::collected(chunk, index, overrides, events, marks, schema, name);
        assert forall|i: int|
            0 <= i < chunk.len() && !all.overrides.contains(
                chunk[i].0,
            ) implies #[trigger] all.chunk[i] == chunk[i] by {
            if driver::supersedes(events.last(), marks.last(), schema, name) {
                laws::lemma_absorbed(before.chunk, index, before.overrides, events.last());
                if before.overrides.contains(chunk[i].0) {
                    assert(all.overrides.contains(chunk[i].0));
                }
                assert(before.chunk[i] == chunk[i]);
                if let Some(id) = fingerprint::event_identity(events.last()) {
                    assert(all.overrides.contains(id));
                    if index.contains_key(id) {
                        assert(before.chunk[index[id] as int].0 == id);
                    }
                }
            } else {
                assert(before.chunk[i] == chunk[i]);
            }
        }
    }
}

proof fn lemma_survivors_are_kept<P>(
    open: OpenChunk<P>,
    rows: Seq<(String, Event)>,
    overrides: Seq<Seq<char>>,
)
    requires
        same_chunk(open, driver::chunk_view(rows), overrides),
    ensures
        event::event_views(driver::surviving(rows, overrides)) == kept(open.chunk, open.noted),
    decreases rows.len(),
{
    let left = event::event_views(driver::surviving(rows, overrides));
    let view = driver::chunk_view(rows);
    if rows.len() == 0 {
        assert(left =~= kept(open.chunk, open.noted));
    } else {
        let fewer = rows.drop_last();
        let shorter = OpenChunk { chunk: open.chunk.drop_last(), ..open };
        let short_view = driver::chunk_view(fewer);
        assert(short_view =~= view.drop_last());
        assert(same_chunk(shorter, short_view, overrides)) by {
            assert forall|i: int| 0 <= i < short_view.len() implies (#[trigger] short_view[i]).0
                == shorter.chunk[i].0 by {
                assert(short_view[i] == view[i]);
            }
            assert forall|i: int|
                0 <= i < short_view.len() && !shorter.noted.contains(
                    shorter.chunk[i].0,
                ) implies #[trigger] short_view[i] == shorter.chunk[i] by {
                assert(short_view[i] == view[i]);
            }
        }
        lemma_survivors_are_kept(shorter, fewer, overrides);
        let n = rows.len() - 1;
        assert(view[n] == (rows[n].0@, rows[n].1@));
        assert(view[n].0 == open.chunk[n].0);
        let before = driver::surviving(fewer, overrides);
        if overrides.contains(rows.last().0@) {
            assert(open.noted.contains(open.chunk.last().0));
        } else {
            assert(!open.noted.contains(open.chunk.last().0));
            assert(view[n] == open.chunk[n]);
            assert(event::event_views(before.push(rows.last().1)) =~= event::event_views(
                before,
            ).push(rows.last().1@));
        }
    }
}

proof fn lemma_one_act_agrees<P: StreamPosition>(
    book: Ledger<P>,
    delivered: Seq<EventView>,
    before: IncrementalSnapshotDriver<P>,
    act: Act<P>,
    after: IncrementalSnapshotDriver<P>,
)
    requires
        leads(before, act, after),
        agrees(book, delivered, before),
    ensures
        agrees(entered(book, before, act), delivered + rows_out(before, act), after),
{
    let next = entered(book, before, act);
    let out = rows_out(before, act);
    let now_out = delivered + out;
    match act {
        Act::Drove { timeout_ms, step, passed } => {
            match steps::settled_phase(before.phase) {
                Phase::ChunkEmit { table_idx, events, next_cursor, row_count } => {
                    let n = driver::batch_size(events@);
                    assert(out =~= event::event_views(events@).take(n));
                    assert(waiting(after) =~= event::event_views(events@).skip(n));
                    assert(now_out + waiting(after) =~= delivered + waiting(before));
                },
                _ => {
                    assert(waiting(before) =~= Seq::<EventView>::empty());
                    assert(waiting(after) =~= Seq::<EventView>::empty());
                    assert(now_out + waiting(after) =~= delivered + waiting(before));
                },
            }
        },
        Act::Read { table_idx, low, rows, high, now: moment } => {
            assert(now_out + waiting(after) =~= delivered + waiting(before));
            if rows.len() > 0 {
                if let Phase::ChunkCollect { chunk_rows, override_pks, .. } = after.phase {
                    let open = next.open->0;
                    let view = driver::chunk_view(chunk_rows@);
                    assert(text::texts(override_pks@) =~= Seq::<Seq<char>>::empty());
                    assert(same_chunk(open, view, text::texts(override_pks@)));
                }
            }
        },
        Act::Looked { batch: events, marks, outcome: step } => {
            assert(waiting(before) =~= Seq::<EventView>::empty());
            assert(out =~= Seq::<EventView>::empty());
            if let Phase::ChunkCollect {
                table_idx,
                high_watermark,
                chunk_rows,
                chunk_index_by_key,
                override_pks,
                next_cursor,
                ..
            } = before.phase {
                let open = book.open->0;
                let views = event::event_views(events);
                lemma_collected_tracks(
                    open,
                    driver::chunk_view(chunk_rows@),
                    row_index::places(chunk_index_by_key),
                    text::texts(override_pks@),
                    views,
                    marks,
                );
                let all = driver::collected(
                    driver::chunk_view(chunk_rows@),
                    row_index::places(chunk_index_by_key),
                    text::texts(override_pks@),
                    views,
                    marks,
                    open.schema,
                    open.name,
                );
                let more = OpenChunk {
                    noted: open.noted.union(superseded(views, marks, open.schema, open.name)),
                    ..open
                };
                if driver::reaches(marks, high_watermark) {
                    let merged_rows = choose|rows: Seq<(String, Event)>| #[trigger]
                        driver::chunk_view(rows) == all.chunk && steps::merged(
                            after.phase,
                            table_idx,
                            rows,
                            all.overrides,
                            next_cursor,
                        );
                    lemma_survivors_are_kept(more, merged_rows, all.overrides);
                    assert(now_out =~= delivered);
                    assert(waiting(after) == kept(more.chunk, more.noted));
                    assert(delivered + waiting(before) =~= delivered);
                    assert(next.due == now_out + waiting(after));
                } else {
                    assert(now_out + waiting(after) =~= delivered + waiting(before));
                }
            }
        },
        Act::Quiet { position, outcome: step } => {
            assert(waiting(before) =~= Seq::<EventView>::empty());
            assert(out =~= Seq::<EventView>::empty());
            if let Phase::ChunkCollect { high_watermark, chunk_rows, override_pks, .. } =
                before.phase {
                let open = book.open->0;
                if position.rank() >= high_watermark.rank() {
                    lemma_survivors_are_kept(open, chunk_rows@, text::texts(override_pks@));
                    assert(now_out =~= delivered);
                    assert(delivered + waiting(before) =~= delivered);
                    assert(next.due == now_out + waiting(after));
                } else {
                    assert(now_out + waiting(after) =~= delivered + waiting(before));
                }
            }
        },
        _ => {
            assert(now_out + waiting(after) =~= delivered + waiting(before));
        },
    }
}

/// Every chunk row is handed out once, in the order in which it was read, unless a live event
/// inside its chunk's bracket superseded it; then it is not handed out at all. Over any run from a
/// driver without an open chunk: what has been handed out, followed by what awaits delivery, is
/// what the ledger says is due.
pub proof fn each_row_is_delivered_once<P: StreamPosition>(
    states: Seq<IncrementalSnapshotDriver<P>>,
    acts: Seq<Act<P>>,
)
    requires
        is_run(states, acts),
        at_rest(states[0]),
    ensures
        all_rows(states, acts) + waiting(states.last()) == ledger(states, acts).due,
        at_rest(states.last()) ==> all_rows(states, acts) == ledger(states, acts).due && ledger(
            states,
            acts,
        ).open is None,
{
    lemma_run_agrees(states, acts);
    assert(at_rest(states.last()) ==> all_rows(states, acts) + waiting(states.last())
        =~= all_rows(states, acts));
}

proof fn lemma_run_agrees<P: StreamPosition>(
    states: Seq<IncrementalSnapshotDriver<P>>,
    acts: Seq<Act<P>>,
)
    requires
        is_run(states, acts),
        at_rest(states[0]),
    ensures
        agrees(ledger(states, acts), all_rows(states, acts), states.last()),
    decreases acts.len(),
{
    if acts.len() == 0 {
        assert(states.last() == states[0]);
        assert(all_rows(states, acts) + waiting(states.last()) =~= ledger(states, acts).due);
    } else {
        lemma_shorter(states, acts);
        lemma_run_agrees(states.drop_last(), acts.drop_last());
        lemma_one_act_agrees(
            ledger(states.drop_last(), acts.drop_last()),
            all_rows(states.drop_last(), acts.drop_last()),
            states[acts.len() - 1],
            acts.last(),
            states.last(),
        );
    }
}

/// Whether a table's cursor is the one it started with, or the end of a chunk of it all of whose
/// due rows, and those of every chunk before it, have been handed out.
pub open spec fn cursor_earned<P>(
    first: IncrementalSnapshotDriver<P>,
    ledger: Ledger<P>,
    delivered: Seq<EventView>,
    d: IncrementalSnapshotDriver<P>,
    table: int,
) -> bool {
    let cursor = state::cursor_view(d.tables@[table].pk_cursor);
    ||| cursor == state::cursor_view(first.tables@[table].pk_cursor)
    ||| exists|k: int|
        0 <= k < ledger.ends.len() && (#[trigger] ledger.ends[k]).table_idx == table && cursor
            == Some(ledger.ends[k].cursor) && ledger.ends[k].due <= delivered.len()
}

/// A recorded cursor never runs ahead of delivery, whatever the calls: resuming from the record of
/// any state of a run loses no row.
pub proof fn cursor_never_runs_ahead<P: StreamPosition>(
    states: Seq<IncrementalSnapshotDriver<P>>,
    acts: Seq<Act<P>>,
)
    requires
        is_run(states, acts),
        at_rest(states[0]),
    ensures
        states.last().tables@.len() == states[0].tables@.len(),
        all_rows(states, acts).is_prefix_of(ledger(states, acts).due),
        forall|table: int|
            0 <= table < states[0].tables@.len() ==> #[trigger] cursor_earned(
                states[0],
                ledger(states, acts),
                all_rows(states, acts),
                states.last(),
                table,
            ),
    decreases acts.len(),
{
    lemma_run_agrees(states, acts);
    if acts.len() == 0 {
        assert(states.last() == states[0]);
    } else {
        lemma_shorter(states, acts);
        let fewer = states.drop_last();
        let less = acts.drop_last();
        cursor_never_runs_ahead(fewer, less);
        lemma_run_agrees(fewer, less);
        let first = states[0];
        let before = states[acts.len() - 1];
        let after = states.last();
        let act = acts.last();
        let book = ledger(fewer, less);
        let next = ledger(states, acts);
        let delivered = all_rows(fewer, less);
        let now_out = all_rows(states, acts);
        assert forall|k: int| 0 <= k < book.ends.len() implies k < next.ends.len()
            && next.ends[k] == #[trigger] book.ends[k] by {}
        assert forall|table: int| 0 <= table < first.tables@.len() implies #[trigger] cursor_earned(
            first,
            next,
            now_out,
            after,
            table,
        ) by {
            assert(cursor_earned(first, book, delivered, before, table));
            let old_cursor = state::cursor_view(before.tables@[table].pk_cursor);
            let new_cursor = state::cursor_view(after.tables@[table].pk_cursor);
            if new_cursor == old_cursor {
                if old_cursor != state::cursor_view(first.tables@[table].pk_cursor) {
                    let k = choose|k: int|
                        0 <= k < book.ends.len() && (#[trigger] book.ends[k]).table_idx == table
                            && old_cursor == Some(book.ends[k].cursor) && book.ends[k].due
                            <= delivered.len();
                    assert(next.ends[k] == book.ends[k]);
                    assert(next.ends[k].table_idx == table);
                }
            } else {
                assert(act is Drove);
                assert(before.phase is ChunkEmit);
                let k = book.ends.len() - 1;
                assert(delivered + waiting(before) =~= delivered);
                assert(next.ends[k] == book.ends[k]);
                assert(next.ends[k].table_idx == table);
                assert(new_cursor == Some(next.ends[k].cursor));
            }
        }
    }
}

} // verus!
