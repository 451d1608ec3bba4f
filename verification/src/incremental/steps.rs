//! The steps of the incremental-snapshot driver.
use std::collections::VecDeque;
use vstd::prelude::*;
use crate::event;
use crate::event::{
    BeforeImage, Event, Operation, SnapshotMetadata, SourceMetadata, EVENT_ENVELOPE_VERSION,
};
use crate::incremental::driver;
use crate::incremental::driver::{
    CollectStep, DriveStep, IncrementalSnapshotDriver, Phase, TableProgress,
    COLLECT_POLL_CEILING_MS, EMIT_BATCH_SIZE,
};
use crate::incremental::fingerprint;
use crate::incremental::repair;
use crate::incremental::row_index;
use crate::incremental::state;
use crate::incremental::state::{IncrementalSnapshotState, IncrementalSnapshotTableState};
use crate::incremental::table::{BracketPosition, ChunkRow, EventMark, StreamPosition};
use crate::json;
use crate::text;

verus! {

/// The place of the first table with work outstanding.
pub fn find_incomplete(tables: &Vec<TableProgress>) -> (place: Option<usize>)
    ensures
        match place {
            Some(i) => i as int == driver::first_incomplete(tables@) && i < tables@.len()
                && !tables@[i as int].is_complete,
            None => driver::first_incomplete(tables@) == tables@.len(),
        },
{
    let mut i: usize = 0;
    proof {
        assert(tables@.skip(0) =~= tables@);
    }
    while i < tables.len()
        invariant
            i <= tables@.len(),
            driver::first_incomplete(tables@) == i + driver::first_incomplete(
                tables@.skip(i as int),
            ),
        decreases tables.len() - i,
    {
        if !tables[i].is_complete {
            return Some(i);
        }
        proof {
            assert(tables@.skip(i as int).drop_first() =~= tables@.skip(i + 1));
        }
        i = i + 1;
    }
    None
}

/// The place of the first table under a key.
pub fn find_table(tables: &Vec<TableProgress>, key: &str) -> (place: Option<usize>)
    ensures
        match place {
            Some(i) => i as int == driver::table_place(tables@, key@) && i < tables@.len(),
            None => driver::table_place(tables@, key@) == tables@.len(),
        },
{
    let mut i: usize = 0;
    proof {
        assert(tables@.skip(0) =~= tables@);
    }
    while i < tables.len()
        invariant
            i <= tables@.len(),
            driver::table_place(tables@, key@) == i + driver::table_place(
                tables@.skip(i as int),
                key@,
            ),
        decreases tables.len() - i,
    {
        let theirs = tables[i].spec.key();
        if text::same_text(theirs.as_str(), key) {
            return Some(i);
        }
        proof {
            assert(tables@.skip(i as int).drop_first() =~= tables@.skip(i + 1));
        }
        i = i + 1;
    }
    None
}

/// Takes the first batch off a queue.
fn take_batch(queue: &mut VecDeque<Event>) -> (batch: Vec<Event>)
    ensures
        batch@ == old(queue)@.take(driver::batch_size(old(queue)@)),
        final(queue)@ == old(queue)@.skip(driver::batch_size(old(queue)@)),
{
    let ghost all = queue@;
    let mut batch: Vec<Event> = Vec::new();
    proof {
        assert(all.skip(0) =~= all);
        assert(all.take(0) =~= Seq::<Event>::empty());
    }
    while batch.len() < EMIT_BATCH_SIZE && queue.len() > 0
        invariant
            batch@.len() <= EMIT_BATCH_SIZE,
            batch@.len() <= all.len(),
            batch@ == all.take(batch@.len() as int),
            queue@ == all.skip(batch@.len() as int),
        decreases queue@.len(),
    {
        let ghost n = batch@.len() as int;
        match queue.pop_front() {
            Some(event) => {
                proof {
                    assert(event == all[n]);
                    assert(all.take(n + 1) =~= all.take(n).push(event));
                    assert(all.skip(n).skip(1) =~= all.skip(n + 1));
                    assert(queue@ =~= all.skip(n + 1));
                }
                batch.push(event);
            },
            None => {},
        }
    }
    batch
}

/// Puts events at the end of a queue.
fn hold_back(queue: &mut VecDeque<Event>, tail: Vec<Event>)
    ensures
        final(queue)@ == old(queue)@ + tail@,
{
    let ghost held = queue@;
    let ghost all = tail@;
    proof {
        assert(held + all.take(0) =~= held);
    }
    for late in iter: tail
        invariant
            iter.seq() == all,
            queue@ == held + all.take(iter.index() as int),
    {
        let ghost n = iter.index() as int;
        queue.push_back(late);
        proof {
            assert(held + all.take(n + 1) =~= (held + all.take(n)).push(all[n]));
        }
    }
    proof {
        assert(all.take(all.len() as int) =~= all);
    }
}

/// Applies an event that supersedes its row.
fn absorb(
    chunk_rows: &mut Vec<(String, Event)>,
    index: &ahash::AHashMap<String, usize>,
    override_pks: &mut Vec<String>,
    event: &mut Event,
)
    requires
        driver::index_fits(driver::chunk_view(old(chunk_rows)@), row_index::places(*index)),
    ensures
        ({
            let one = driver::absorbed(
                driver::chunk_view(old(chunk_rows)@),
                row_index::places(*index),
                text::texts(old(override_pks)@),
                old(event)@,
            );
            &&& driver::chunk_view(final(chunk_rows)@) == one.chunk
            &&& text::texts(final(override_pks)@) == one.overrides
            &&& seq![final(event)@] == one.events
        }),
        driver::index_fits(driver::chunk_view(final(chunk_rows)@), row_index::places(*index)),
{
    let ghost chunk = driver::chunk_view(chunk_rows@);
    let ghost start = event@;
    match fingerprint::event_fingerprint(event) {
        None => {},
        Some(id) => {
            match row_index::place(index, id.as_str()) {
                Some(place) => {
                    let ghost old_rows = chunk_rows@;
                    let ghost p = place as int;
                    proof {
                        assert(chunk[p] == (old_rows[p].0@, old_rows[p].1@));
                    }
                    match &mut chunk_rows[place].1.after {
                        Some(shadow) => {
                            if json::is_object(shadow) {
                                let _missing = repair::repair_event(shadow, event);
                            }
                        },
                        None => {},
                    }
                    proof {
                        let one = driver::absorbed(
                            chunk,
                            row_index::places(*index),
                            text::texts(override_pks@),
                            start,
                        );
                        assert(driver::chunk_view(chunk_rows@) =~= one.chunk);
                    }
                },
                None => {},
            }
            let ghost ids = text::texts(override_pks@);
            let ghost word = id@;
            if !text::contains_text(override_pks, id.as_str()) {
                override_pks.push(id);
                proof {
                    assert(text::texts(override_pks@) =~= ids.push(word));
                }
            }
        },
    }
}

/// The chunk rows that nothing superseded.
fn survivors(chunk_rows: Vec<(String, Event)>, override_pks: &Vec<String>) -> (events: VecDeque<
    Event,
>)
    ensures
        events@ == driver::surviving(chunk_rows@, text::texts(override_pks@)),
{
    let ghost all = chunk_rows@;
    let ghost ids = text::texts(override_pks@);
    let mut events: VecDeque<Event> = VecDeque::new();
    for row in iter: chunk_rows
        invariant
            iter.seq() == all,
            ids == text::texts(override_pks@),
            events@ == driver::surviving(all.take(iter.index() as int), ids),
    {
        proof {
            let n = iter.index() as int;
            assert(all.take(n + 1).drop_last() =~= all.take(n));
            assert(all.take(n + 1).last() == row);
        }
        let (id, event) = row;
        if !text::contains_text(override_pks, id.as_str()) {
            events.push_back(event);
        }
    }
    proof {
        assert(all.take(all.len() as int) =~= all);
    }
    events
}

/// What suspending or resuming chunk reading does: a driver that had nothing to do takes up the
/// work that is outstanding.
pub open spec fn pause_set<P>(before: IncrementalSnapshotDriver<P>, paused: bool, after: IncrementalSnapshotDriver<P>) -> bool {
    &&& after.paused == paused
    &&& after.tables == before.tables
    &&& after.deferred == before.deferred
    &&& (IncrementalSnapshotDriver { paused: before.paused, ..after }).same_settings(before)
    &&& if !paused && before.phase is Done && driver::first_incomplete(before.tables@)
        < before.tables@.len() {
        after.phase == Phase::<P>::ChunkPrepare {
            table_idx: driver::first_incomplete(before.tables@) as usize,
        }
    } else {
        after.phase == before.phase
    }
}

impl<P> IncrementalSnapshotDriver<P> {
    /// The place of the next table with work outstanding, from the start of the list, so that a
    /// table that was requested again behind the current one is not passed over.
    pub fn next_incomplete_table(&self) -> (place: Option<usize>)
        ensures
            match place {
                Some(i) => i as int == driver::first_incomplete(self.tables@) && i
                    < self.tables@.len(),
                None => driver::first_incomplete(self.tables@) == self.tables@.len(),
            },
    {
        find_incomplete(&self.tables)
    }

    /// Suspends or resumes chunk reading; gives back whether it was suspended. A chunk that has
    /// been read already is still delivered.
    pub fn set_paused(&mut self, paused: bool) -> (previous: bool)
        requires
            old(self).wf(),
        ensures
            final(self).wf(),
            previous == old(self).paused,
            pause_set(*old(self), paused, *final(self)),
    {
        let previous = self.paused;
        self.paused = paused;
        if !paused && matches!(self.phase, Phase::Done) {
            if let Some(table_idx) = self.next_incomplete_table() {
                self.phase = Phase::ChunkPrepare { table_idx };
            }
        }
        previous
    }

    /// Abandons the snapshot: drops every table, cursor and undelivered chunk row, and gives back
    /// how many tables had work outstanding. Held-back log events stay: they belong to the live
    /// stream.
    pub fn stop_snapshot(&mut self) -> (abandoned: usize)
        ensures
            final(self).chunk_size == old(self).chunk_size,
            abandoned as nat == driver::incomplete_count(old(self).tables@),
            final(self).tables@.len() == 0,
            final(self).phase is Done,
            final(self).deferred == old(self).deferred,
            !final(self).paused,
            final(self).stopped,
            final(self).generation == (if old(self).generation == u32::MAX {
                u32::MAX
            } else {
                (old(self).generation + 1) as u32
            }),
            final(self).snapshot_id == old(self).snapshot_id,
            final(self).source_name == old(self).source_name,
            final(self).table_conditions == old(self).table_conditions,
            final(self).events_emitted == old(self).events_emitted,
    {
        let mut abandoned: usize = 0;
        let mut i: usize = 0;
        proof {
            assert(self.tables@.take(0) =~= Seq::<TableProgress>::empty());
        }
        while i < self.tables.len()
            invariant
                i <= self.tables@.len(),
                abandoned <= i,
                abandoned as nat == driver::incomplete_count(self.tables@.take(i as int)),
            decreases self.tables.len() - i,
        {
            proof {
                assert(self.tables@.take(i + 1).drop_last() =~= self.tables@.take(i as int));
            }
            if !self.tables[i].is_complete {
                abandoned = abandoned + 1;
            }
            i = i + 1;
        }
        proof {
            assert(self.tables@.take(i as int) =~= self.tables@);
        }
        self.tables = Vec::new();
        self.phase = Phase::Done;
        self.paused = false;
        self.stopped = true;
        self.generation = self.generation.saturating_add(1);
        abandoned
    }

    /// The durable record of the snapshot's progress.
    pub fn snapshot_state(&self) -> (record: IncrementalSnapshotState)
        ensures
            record@ == self.state_view(),
    {
        let mut tables: Vec<IncrementalSnapshotTableState> = Vec::new();
        let ghost views = driver::progress_views(self.tables@);
        let mut i: usize = 0;
        while i < self.tables.len()
            invariant
                i <= self.tables@.len(),
                views == driver::progress_views(self.tables@),
                state::table_views(tables@) == views.take(i as int),
            decreases self.tables.len() - i,
        {
            let ghost before = state::table_views(tables@);
            let table = &self.tables[i];
            let entry = IncrementalSnapshotTableState {
                table: table.spec.key(),
                pk_cursor: state::clone_cursor(&table.pk_cursor),
                is_complete: table.is_complete,
                chunks_emitted: table.chunks_emitted,
                rows_emitted: table.rows_emitted,
                condition: text::clone_text_option(&table.spec.condition),
            };
            let ghost seen = entry@;
            tables.push(entry);
            proof {
                assert(state::table_views(tables@) =~= before.push(seen));
                assert(views.take(i + 1) =~= views.take(i as int).push(seen));
            }
            i = i + 1;
        }
        proof {
            assert(views.take(i as int) =~= views);
        }
        IncrementalSnapshotState {
            snapshot_id: self.snapshot_id.clone(),
            paused: self.paused,
            stopped: self.stopped,
            generation: self.generation,
            tables,
        }
    }

    /// The record to make durable with the stream's position, or `None` while log events are
    /// held back: the stream has then advanced past events that the consumer has not been given,
    /// and its position must not become durable.
    pub fn durable_state(&self) -> (record: Option<IncrementalSnapshotState>)
        ensures
            match record {
                Some(record) => self.deferred@.len() == 0 && record@ == self.state_view(),
                None => self.deferred@.len() > 0,
            },
    {
        if self.deferred.len() > 0 {
            None
        } else {
            Some(self.snapshot_state())
        }
    }

    /// The stream's own offset with the record to make durable beside it. `None` while log events
    /// are held back, and where the stream has no offset.
    pub fn position_offset<O>(&self, inner: Option<O>) -> (offset: Option<
        (O, IncrementalSnapshotState),
    >)
        ensures
            match offset {
                Some((place, record)) => self.deferred@.len() == 0 && inner == Some(place)
                    && record@ == self.state_view(),
                None => self.deferred@.len() > 0 || inner is None,
            },
    {
        match (self.durable_state(), inner) {
            (Some(record), Some(place)) => Some((place, record)),
            _ => None,
        }
    }

    /// Counts events as handed to the consumer.
    pub fn count_delivered(&mut self, events: usize)
        ensures
            *final(self) == (IncrementalSnapshotDriver {
                events_emitted: if old(self).events_emitted + events > u64::MAX {
                    u64::MAX
                } else {
                    (old(self).events_emitted + events) as u64
                },
                ..*old(self)
            }),
    {
        self.events_emitted = self.events_emitted.saturating_add(events as u64);
    }

    /// The event that a chunk row becomes.
    fn build_snapshot_event(
        &self,
        table_idx: usize,
        row_id: &str,
        row: serde_json::Value,
        chunk_index: u32,
        now: u64,
    ) -> (event: Event)
        requires
            table_idx < self.tables@.len(),
            row_id@ == fingerprint::row_fingerprint(
                self.tables@[table_idx as int].spec.name@,
                text::texts(self.tables@[table_idx as int].spec.pk_columns@),
                json::json(row),
            ),
        ensures
            event@ == driver::snapshot_event(
                self.tables@[table_idx as int].spec,
                self.source_name@,
                self.snapshot_id@,
                self.generation,
                chunk_index,
                json::json(row),
                now,
            ),
    {
        let table = &self.tables[table_idx].spec;
        let mut offset = text::join3(
            "incremental:",
            text::decimal(self.generation as u64).as_str(),
            ":",
        );
        offset.append(table.qualified.as_str());
        offset.append(":");
        offset.append(row_id);
        let event = Event {
            before: BeforeImage::Unavailable,
            after: Some(row),
            op: Operation::Read,
            source: SourceMetadata {
                source_name: self.source_name.clone(),
                offset,
                timestamp: now,
            },
            ts: now,
            schema: Some(table.schema.clone()),
            table: table.name.clone(),
            primary_key: Some(text::clone_texts(&table.pk_columns)),
            snapshot: Some(
                SnapshotMetadata {
                    snapshot_id: self.snapshot_id.clone(),
                    chunk_index,
                    is_last_chunk: false,
                },
            ),
            transaction: None,
            envelope_version: EVENT_ENVELOPE_VERSION,
            schema_id: None,
            unavailable_columns: Vec::new(),
        };
        proof {
            assert(event@.unavailable_columns =~= Seq::<Seq<char>>::empty());
        }
        event
    }

    /// Makes a fully delivered chunk's cursor and counters durable progress.
    fn commit_chunk_progress(
        &mut self,
        table_idx: usize,
        next_cursor: Vec<serde_json::Value>,
        row_count: u64,
    )
        requires
            table_idx < old(self).tables@.len(),
        ensures
            final(self).tables@ == old(self).tables@.update(
                table_idx as int,
                driver::committed(old(self).tables@[table_idx as int], next_cursor, row_count),
            ),
            final(self).same_settings(*old(self)),
            final(self).phase == old(self).phase,
            final(self).deferred == old(self).deferred,
    {
        let table = &mut self.tables[table_idx];
        if next_cursor.len() > 0 {
            table.pk_cursor = Some(next_cursor);
        }
        table.chunks_emitted = table.chunks_emitted.saturating_add(1);
        table.rows_emitted = table.rows_emitted.saturating_add(row_count);
    }
}


/// The phase and step that follow where no chunk is open and nothing is held back.
pub open spec fn next_step<P>(
    tables: Seq<TableProgress>,
    phase: Phase<P>,
    paused: bool,
    timeout_ms: u64,
) -> (Phase<P>, DriveStep) {
    match phase {
        Phase::ChunkPrepare { table_idx } => if paused {
            (phase, DriveStep::PassThrough { timeout_ms })
        } else if driver::chosen_table(tables, table_idx) < tables.len() {
            (
                phase,
                DriveStep::ReadChunk {
                    table_idx: driver::chosen_table(tables, table_idx) as usize,
                },
            )
        } else {
            (Phase::Done, DriveStep::PassThrough { timeout_ms })
        },
        _ => (phase, DriveStep::PassThrough { timeout_ms }),
    }
}

/// The tables after the delivery of the open chunk, where it is delivered in full, is noted.
pub open spec fn settled_tables<P>(tables: Seq<TableProgress>, phase: Phase<P>) -> Seq<
    TableProgress,
> {
    match phase {
        Phase::ChunkEmit { table_idx, events, next_cursor, row_count } => if events@.len() == 0 {
            tables.update(
                table_idx as int,
                driver::committed(tables[table_idx as int], next_cursor, row_count),
            )
        } else {
            tables
        },
        _ => tables,
    }
}

/// The phase after the delivery of the open chunk, where it is delivered in full, is noted.
pub open spec fn settled_phase<P>(phase: Phase<P>) -> Phase<P> {
    match phase {
        Phase::ChunkEmit { table_idx, events, next_cursor, row_count } => if events@.len() == 0 {
            Phase::ChunkPrepare { table_idx }
        } else {
            phase
        },
        _ => phase,
    }
}

/// What [`IncrementalSnapshotDriver::drive`] does: the rows of an emitted chunk go out first, then
/// its cursor becomes durable, then held-back log events go out, and only then work goes on.
pub open spec fn drove<P>(
    before: IncrementalSnapshotDriver<P>,
    timeout_ms: u64,
    step: DriveStep,
    after: IncrementalSnapshotDriver<P>,
) -> bool {
    &&& after.same_settings(before)
    &&& match settled_phase(before.phase) {
        Phase::ChunkEmit { table_idx, events, next_cursor, row_count } => {
            let n = driver::batch_size(events@);
            &&& step matches DriveStep::Deliver(batch) && batch@ == events@.take(n)
            &&& after.phase matches Phase::ChunkEmit {
                table_idx: kept_idx,
                events: left,
                next_cursor: kept_cursor,
                row_count: kept_count,
            } && kept_idx == table_idx && left@ == events@.skip(n) && kept_cursor
                == next_cursor && kept_count == row_count
            &&& after.tables == before.tables
            &&& after.deferred == before.deferred
        },
        Phase::ChunkCollect { .. } => {
            &&& step == (DriveStep::Collect {
                timeout_ms: if timeout_ms < COLLECT_POLL_CEILING_MS {
                    timeout_ms
                } else {
                    COLLECT_POLL_CEILING_MS
                },
            })
            &&& after == before
        },
        settled => {
            let tables = settled_tables(before.tables@, before.phase);
            &&& after.tables@ == tables
            &&& if before.deferred@.len() > 0 {
                let n = driver::batch_size(before.deferred@);
                &&& step matches DriveStep::Deliver(batch) && batch@
                    == before.deferred@.take(n)
                &&& after.deferred@ == before.deferred@.skip(n)
                &&& after.phase == settled
            } else {
                let next = next_step(tables, settled, before.paused, timeout_ms);
                &&& after.deferred == before.deferred
                &&& after.phase == next.0
                &&& step == next.1
            }
        },
    }
}

/// What [`IncrementalSnapshotDriver::chunk_read`] does.
pub open spec fn chunk_taken<P>(
    before: IncrementalSnapshotDriver<P>,
    table_idx: usize,
    low_watermark: P,
    rows: Seq<ChunkRow>,
    high_watermark: P,
    now: u64,
    after: IncrementalSnapshotDriver<P>,
) -> bool {
    &&& after.same_settings(before)
    &&& after.deferred == before.deferred
    &&& if rows.len() == 0 {
        let tables = before.tables@.update(
            table_idx as int,
            TableProgress { is_complete: true, ..before.tables@[table_idx as int] },
        );
        &&& after.tables@ == tables
        &&& after.phase == (if driver::first_incomplete(tables) < tables.len() {
            Phase::<P>::ChunkPrepare {
                table_idx: driver::first_incomplete(tables) as usize,
            }
        } else {
            Phase::<P>::Done
        })
    } else {
        &&& after.tables == before.tables
        &&& after.phase matches Phase::ChunkCollect {
            table_idx: idx,
            low_watermark: low,
            high_watermark: high,
            chunk_rows,
            chunk_index_by_key,
            override_pks,
            next_cursor,
        } && idx == table_idx && low == low_watermark && high == high_watermark
            && driver::chunk_view(chunk_rows@) == driver::chunk_of(
            rows,
            before.tables@[table_idx as int].spec,
            before.source_name@,
            before.snapshot_id@,
            before.generation,
            before.tables@[table_idx as int].chunks_emitted,
            now,
        ) && override_pks@.len() == 0 && json::jsons(next_cursor@) == json::jsons(
            rows.last().cursor@,
        )
    }
}

impl<P> IncrementalSnapshotDriver<P> {
    /// What to do next.
    ///
    /// Rows of an emitted chunk go out first; then the chunk's cursor becomes durable; then held
    /// back log events go out, before another chunk is read. A paused driver, and one without
    /// work, lets the stream pass through.
    pub fn drive(&mut self, timeout_ms: u64) -> (step: DriveStep)
        requires
            old(self).wf(),
        ensures
            final(self).wf(),
            drove(*old(self), timeout_ms, step, *final(self)),
    {
        let mut phase: Phase<P> = Phase::Done;
        std::mem::swap(&mut phase, &mut self.phase);
        match phase {
            Phase::ChunkEmit { table_idx, mut events, next_cursor, row_count } => {
                if events.len() > 0 {
                    let batch = take_batch(&mut events);
                    self.phase = Phase::ChunkEmit { table_idx, events, next_cursor, row_count };
                    return DriveStep::Deliver(batch);
                }
                self.commit_chunk_progress(table_idx, next_cursor, row_count);
                self.phase = Phase::ChunkPrepare { table_idx };
            },
            Phase::ChunkCollect { .. } => {
                self.phase = phase;
                let ceiling = COLLECT_POLL_CEILING_MS;
                return DriveStep::Collect {
                    timeout_ms: if timeout_ms < ceiling {
                        timeout_ms
                    } else {
                        ceiling
                    },
                };
            },
            other => {
                self.phase = other;
            },
        }
        if self.deferred.len() > 0 {
            return DriveStep::Deliver(take_batch(&mut self.deferred));
        }
        match self.phase {
            Phase::ChunkPrepare { table_idx } => {
                if self.paused {
                    return DriveStep::PassThrough { timeout_ms };
                }
                if table_idx < self.tables.len() && !self.tables[table_idx].is_complete {
                    return DriveStep::ReadChunk { table_idx };
                }
                match find_incomplete(&self.tables) {
                    Some(place) => {
                        return DriveStep::ReadChunk { table_idx: place };
                    },
                    None => {
                        self.phase = Phase::Done;
                    },
                }
            },
            _ => {},
        }
        DriveStep::PassThrough { timeout_ms }
    }

    /// Takes in a chunk read: the position before it, its rows, and the position after it.
    ///
    /// No rows mean that the table is complete. Otherwise the chunk is buffered, each row under
    /// its identity, and the cursor that it ends at is held back.
    pub fn chunk_read(
        &mut self,
        table_idx: usize,
        low_watermark: P,
        rows: Vec<ChunkRow>,
        high_watermark: P,
        now: u64,
    )
        requires
            old(self).wf(),
            old(self).phase is ChunkPrepare,
            table_idx < old(self).tables@.len(),
        ensures
            final(self).wf(),
            chunk_taken(
                *old(self),
                table_idx,
                low_watermark,
                rows@,
                high_watermark,
                now,
                *final(self),
            ),
    {
        if rows.len() == 0 {
            let table = &mut self.tables[table_idx];
            table.is_complete = true;
            self.phase = match find_incomplete(&self.tables) {
                Some(place) => Phase::ChunkPrepare { table_idx: place },
                None => Phase::Done,
            };
            return;
        }
        let next_cursor = json::clone_values(&rows[rows.len() - 1].cursor);
        let chunk_index = self.tables[table_idx].chunks_emitted;
        let ghost all = rows@;
        let ghost spec = self.tables@[table_idx as int].spec;
        let ghost whole = driver::chunk_of(
            all,
            spec,
            self.source_name@,
            self.snapshot_id@,
            self.generation,
            chunk_index,
            now,
        );
        let mut chunk_rows: Vec<(String, Event)> = Vec::new();
        let mut index = row_index::empty_index();
        proof {
            assert(driver::chunk_view(chunk_rows@) =~= whole.take(0));
        }
        for row in iter: rows
            invariant
                iter.seq() == all,
                table_idx < self.tables@.len(),
                spec == self.tables@[table_idx as int].spec,
                chunk_rows@.len() == iter.index(),
                whole == driver::chunk_of(
                    all,
                    spec,
                    self.source_name@,
                    self.snapshot_id@,
                    self.generation,
                    chunk_index,
                    now,
                ),
                driver::chunk_view(chunk_rows@) == whole.take(iter.index() as int),
                driver::index_fits(whole.take(iter.index() as int), row_index::places(index)),
        {
            let ghost n = iter.index() as int;
            let ghost before = chunk_rows@;
            let ghost held = row_index::places(index);
            let table = &self.tables[table_idx].spec;
            let id = fingerprint::fingerprint_from_payload(
                table.name.as_str(),
                table.pk_columns.as_slice(),
                &row.row,
            );
            let event = self.build_snapshot_event(table_idx, id.as_str(), row.row, chunk_index, now);
            row_index::set_place(&mut index, id.clone(), chunk_rows.len());
            chunk_rows.push((id, event));
            proof {
                assert(driver::chunk_view(chunk_rows@) =~= driver::chunk_view(before).push(
                    whole[n],
                ));
                assert(whole.take(n + 1) =~= whole.take(n).push(whole[n]));
                let chunk = whole.take(n + 1);
                let places = row_index::places(index);
                assert(places == held.insert(chunk[n].0, n as usize));
                assert forall|k: Seq<char>| #[trigger] places.contains_key(k) implies places[k]
                    < chunk.len() && chunk[places[k] as int].0 == k by {
                    if k != chunk[n].0 {
                        assert(held.contains_key(k));
                        assert(whole.take(n)[held[k] as int] == chunk[held[k] as int]);
                    }
                }
                assert forall|i: int| 0 <= i < chunk.len() implies places.contains_key(
                    #[trigger] chunk[i].0,
                ) by {
                    if i < n {
                        assert(whole.take(n)[i] == chunk[i]);
                    }
                }
            }
        }
        proof {
            assert(whole.take(all.len() as int) =~= whole);
        }
        self.phase =
        Phase::ChunkCollect {
            table_idx,
            low_watermark,
            high_watermark,
            chunk_rows,
            chunk_index_by_key: index,
            override_pks: Vec::new(),
            next_cursor,
        };
    }
}

/// The phase once the stream has passed the high watermark: the chunk rows that nothing
/// superseded await delivery.
pub open spec fn merged<P>(
    phase: Phase<P>,
    table_idx: usize,
    chunk_rows: Seq<(String, Event)>,
    overrides: Seq<Seq<char>>,
    next_cursor: Vec<serde_json::Value>,
) -> bool {
    phase matches Phase::ChunkEmit { table_idx: idx, events, next_cursor: cursor, row_count }
        && idx == table_idx && cursor == next_cursor && events@ == driver::surviving(
        chunk_rows,
        overrides,
    ) && row_count == events@.len()
}

/// What [`IncrementalSnapshotDriver::collect`] does.
pub open spec fn looked<P: StreamPosition>(
    before: IncrementalSnapshotDriver<P>,
    events: Seq<Event>,
    marks: Seq<Option<EventMark<P>>>,
    step: CollectStep,
    after: IncrementalSnapshotDriver<P>,
) -> bool {
    &&& after.same_settings(before)
    &&& after.tables == before.tables
    &&& before.phase matches Phase::ChunkCollect {
        table_idx,
        low_watermark,
        high_watermark,
        chunk_rows,
        chunk_index_by_key,
        override_pks,
        next_cursor,
    } && ({
        let spec = before.tables@[table_idx as int].spec;
        let all = driver::collected(
            driver::chunk_view(chunk_rows@),
            row_index::places(chunk_index_by_key),
            text::texts(override_pks@),
            event::event_views(events),
            marks,
            spec.schema@,
            spec.name@,
        );
        let split = if before.deferred@.len() > 0 {
            0
        } else {
            driver::first_after(marks)
        };
        let passed = driver::reaches(marks, high_watermark);
        &&& 0 <= split <= events.len()
        &&& all.events.len() == events.len()
        &&& event::event_views(after.deferred@) == event::event_views(
            before.deferred@,
        ) + all.events.skip(split)
        &&& if passed {
            exists|rows: Seq<(String, Event)>| #[trigger]
                driver::chunk_view(rows) == all.chunk && merged(
                    after.phase,
                    table_idx,
                    rows,
                    all.overrides,
                    next_cursor,
                )
        } else {
            after.phase matches Phase::ChunkCollect {
                table_idx: idx,
                low_watermark: low,
                high_watermark: high,
                chunk_rows: rows,
                chunk_index_by_key: index,
                override_pks: overrides,
                next_cursor: cursor,
            } && idx == table_idx && low == low_watermark && high == high_watermark
                && driver::chunk_view(rows@) == all.chunk && index == chunk_index_by_key
                && text::texts(overrides@) == all.overrides && cursor == next_cursor
        }
        &&& if events.len() == 0 {
            step is AskPosition
        } else if split > 0 || !passed {
            step matches CollectStep::Deliver(head) && event::event_views(head@)
                == all.events.take(split)
        } else {
            step is Continue
        }
    })
}

/// What [`IncrementalSnapshotDriver::collect_quiet`] does.
pub open spec fn quieted<P: StreamPosition>(
    before: IncrementalSnapshotDriver<P>,
    position: P,
    step: CollectStep,
    after: IncrementalSnapshotDriver<P>,
) -> bool {
    &&& after.same_settings(before)
    &&& after.tables == before.tables
    &&& after.deferred == before.deferred
    &&& before.phase matches Phase::ChunkCollect {
        table_idx,
        low_watermark,
        high_watermark,
        chunk_rows,
        chunk_index_by_key,
        override_pks,
        next_cursor,
    } && if position.rank() >= high_watermark.rank() {
        &&& step is Continue
        &&& merged(
            after.phase,
            table_idx,
            chunk_rows@,
            text::texts(override_pks@),
            next_cursor,
        )
    } else {
        &&& step matches CollectStep::Deliver(none) && none@.len() == 0
        &&& after.phase == before.phase
    }
}

impl<P: StreamPosition> IncrementalSnapshotDriver<P> {
    /// Looks at a batch of the live stream while a chunk is open.
    ///
    /// Every event that supersedes its chunk row is noted and repaired. The batch is split at
    /// the first event past the high watermark, and what follows the split is held back; once
    /// something is held back, so is every later batch, so that log order is kept. Where some
    /// event has reached the high watermark, the chunk is merged for delivery.
    pub fn collect(&mut self, events: Vec<Event>, marks: Vec<Option<EventMark<P>>>) -> (step:
        CollectStep)
        requires
            old(self).wf(),
            old(self).phase is ChunkCollect,
            marks@.len() == events@.len(),
        ensures
            final(self).wf(),
            looked(*old(self), events@, marks@, step, *final(self)),
    {
        let mut events = events;
        let mut phase: Phase<P> = Phase::Done;
        std::mem::swap(&mut phase, &mut self.phase);
        match phase {
            Phase::ChunkCollect {
                table_idx,
                low_watermark,
                high_watermark,
                mut chunk_rows,
                chunk_index_by_key,
                mut override_pks,
                next_cursor,
            } => {
                let count = events.len();
                let held_back = self.deferred.len() > 0;
                let ghost chunk = driver::chunk_view(chunk_rows@);
                let ghost index = row_index::places(chunk_index_by_key);
                let ghost ids = text::texts(override_pks@);
                let ghost views = event::event_views(events@);
                let ghost spec = self.tables@[table_idx as int].spec;
                let mut split: usize = 0;
                let mut split_found = held_back;
                let mut passed = false;
                let mut i: usize = 0;
                proof {
                    assert(marks@.skip(0) =~= marks@);
                    assert(views.take(0) =~= Seq::<event::EventView>::empty());
                    let none = driver::collected(
                        chunk,
                        index,
                        ids,
                        views.take(0),
                        marks@.take(0),
                        spec.schema@,
                        spec.name@,
                    );
                    assert(event::event_views(events@).take(0) =~= none.events);
                }
                while i < count
                    invariant
                        i <= count,
                        count == events@.len(),
                        count == marks@.len(),
                        count == views.len(),
                        table_idx < self.tables@.len(),
                        spec == self.tables@[table_idx as int].spec,
                        index == row_index::places(chunk_index_by_key),
                        driver::index_fits(driver::chunk_view(chunk_rows@), index),
                        ({
                            let all = driver::collected(
                                chunk,
                                index,
                                ids,
                                views.take(i as int),
                                marks@.take(i as int),
                                spec.schema@,
                                spec.name@,
                            );
                            &&& driver::chunk_view(chunk_rows@) == all.chunk
                            &&& text::texts(override_pks@) == all.overrides
                            &&& event::event_views(events@).take(i as int) == all.events
                        }),
                        forall|k: int| i <= k < count ==> #[trigger] events@[k]@ == views[k],
                        held_back ==> split_found && split == 0,
                        !held_back && split_found ==> split < i && driver::first_after(marks@)
                            == split,
                        !split_found ==> driver::first_after(marks@) == i + driver::first_after(
                            marks@.skip(i as int),
                        ),
                        passed == (exists|k: int|
                            0 <= k < i && (#[trigger] marks@[k] matches Some(m)
                                && m.position.rank() >= high_watermark.rank())),
                    decreases count - i,
                {
                    let ghost before = driver::collected(
                        chunk,
                        index,
                        ids,
                        views.take(i as int),
                        marks@.take(i as int),
                        spec.schema@,
                        spec.name@,
                    );
                    let ghost earlier = event::event_views(events@).take(i as int);
                    proof {
                        assert(views.take(i + 1).drop_last() =~= views.take(i as int));
                        assert(marks@.take(i + 1).drop_last() =~= marks@.take(i as int));
                        assert(marks@.skip(i as int).drop_first() =~= marks@.skip(i + 1));
                        assert(marks@.skip(i as int)[0] == marks@[i as int]);
                    }
                    let mut superseding = false;
                    match &marks[i] {
                        Some(mark) => {
                            if mark.position.at_or_past(&high_watermark) {
                                passed = true;
                            }
                            match mark.bracket {
                                BracketPosition::After => {
                                    if !split_found {
                                        split_found = true;
                                        split = i;
                                    }
                                },
                                BracketPosition::Inside => {
                                    let target = &self.tables[table_idx].spec;
                                    let same_schema = match &events[i].schema {
                                        Some(schema) => text::same_text(
                                            schema.as_str(),
                                            target.schema.as_str(),
                                        ),
                                        None => true,
                                    };
                                    superseding = same_schema && text::same_text(
                                        events[i].table.as_str(),
                                        target.name.as_str(),
                                    );
                                },
                                BracketPosition::Before => {},
                            }
                        },
                        None => {},
                    }
                    proof {
                        assert(events@[i as int]@ == views[i as int]);
                        assert(superseding == driver::supersedes(
                            views[i as int],
                            marks@[i as int],
                            spec.schema@,
                            spec.name@,
                        ));
                    }
                    if superseding {
                        absorb(
                            &mut chunk_rows,
                            &chunk_index_by_key,
                            &mut override_pks,
                            &mut events[i],
                        );
                    }
                    proof {
                        let all = driver::collected(
                            chunk,
                            index,
                            ids,
                            views.take(i + 1),
                            marks@.take(i + 1),
                            spec.schema@,
                            spec.name@,
                        );
                        assert(event::event_views(events@).take(i as int) =~= earlier);
                        assert(seq![events@[i as int]@].len() == 1);
                        if superseding {
                            let one = driver::absorbed(
                                before.chunk,
                                index,
                                before.overrides,
                                views[i as int],
                            );
                            assert(one.events[0] == events@[i as int]@);
                            assert(one.events.len() == 1);
                        }
                        assert(event::event_views(events@).take(i + 1) =~= all.events);
                    }
                    i = i + 1;
                }
                proof {
                    assert(views.take(count as int) =~= views);
                    assert(marks@.take(count as int) =~= marks@);
                    assert(event::event_views(events@).take(count as int) =~= event::event_views(
                        events@,
                    ));
                    assert(marks@.skip(count as int) =~= Seq::<Option<EventMark<P>>>::empty());
                }
                if !split_found {
                    split = count;
                }
                let ghost done = events@;
                let tail = events.split_off(split);
                let ghost held = self.deferred@;
                hold_back(&mut self.deferred, tail);
                proof {
                    assert(event::event_views(self.deferred@) =~= event::event_views(held)
                        + event::event_views(done).skip(split as int));
                    assert(event::event_views(events@) =~= event::event_views(done).take(
                        split as int,
                    ));
                }
                if passed {
                    let ghost rows = chunk_rows@;
                    let ghost overrides = text::texts(override_pks@);
                    let queue = survivors(chunk_rows, &override_pks);
                    let row_count = queue.len() as u64;
                    self.phase =
                    Phase::ChunkEmit { table_idx, events: queue, next_cursor, row_count };
                    proof {
                        assert(merged(self.phase, table_idx, rows, overrides, next_cursor));
                    }
                } else {
                    self.phase =
                    Phase::ChunkCollect {
                        table_idx,
                        low_watermark,
                        high_watermark,
                        chunk_rows,
                        chunk_index_by_key,
                        override_pks,
                        next_cursor,
                    };
                }
                if count == 0 {
                    CollectStep::AskPosition
                } else if events.len() > 0 || !passed {
                    CollectStep::Deliver(events)
                } else {
                    CollectStep::Continue
                }
            },
            other => {
                self.phase = other;
                CollectStep::Continue
            },
        }
    }

    /// Takes in the position of a stream that had nothing to give: at or past the high watermark
    /// the chunk is merged for delivery, otherwise nothing is due yet.
    pub fn collect_quiet(&mut self, position: P) -> (step: CollectStep)
        requires
            old(self).wf(),
            old(self).phase is ChunkCollect,
        ensures
            final(self).wf(),
            quieted(*old(self), position, step, *final(self)),
    {
        let mut phase: Phase<P> = Phase::Done;
        std::mem::swap(&mut phase, &mut self.phase);
        match phase {
            Phase::ChunkCollect {
                table_idx,
                low_watermark,
                high_watermark,
                chunk_rows,
                chunk_index_by_key,
                override_pks,
                next_cursor,
            } => {
                if position.at_or_past(&high_watermark) {
                    let queue = survivors(chunk_rows, &override_pks);
                    let row_count = queue.len() as u64;
                    self.phase =
                    Phase::ChunkEmit { table_idx, events: queue, next_cursor, row_count };
                    CollectStep::Continue
                } else {
                    self.phase =
                    Phase::ChunkCollect {
                        table_idx,
                        low_watermark,
                        high_watermark,
                        chunk_rows,
                        chunk_index_by_key,
                        override_pks,
                        next_cursor,
                    };
                    CollectStep::Deliver(Vec::new())
                }
            },
            other => {
                self.phase = other;
                CollectStep::Continue
            },
        }
    }
}

} // verus!
