//! The state machine of an incremental snapshot.
//!
//! For each chunk the driver has the caller capture a low watermark, read the chunk and capture
//! a high watermark. It then looks at every batch of the live stream: an event of the chunk's
//! table that the read could not have seen supersedes its chunk row. Once the stream has passed
//! the high watermark, the chunk rows that nothing superseded are emitted. Events past the high
//! watermark are held back until the chunk is out, so that the chunk stands exactly at its high
//! watermark in what the consumer sees.
//!
//! The driver does no I/O. [`IncrementalSnapshotDriver::drive`] says what to do next; the caller
//! does it and hands the outcome to [`IncrementalSnapshotDriver::chunk_read`],
//! [`IncrementalSnapshotDriver::collect`] or [`IncrementalSnapshotDriver::collect_quiet`].
use std::collections::VecDeque;
use vstd::prelude::*;
use crate::event;
use crate::event::{
    BeforeView, Event, EventView, Operation, SnapshotView, SourceView, EVENT_ENVELOPE_VERSION,
};
use crate::incremental::fingerprint;
use crate::incremental::repair;
use crate::incremental::row_index;
use crate::incremental::state;
use crate::incremental::state::{StateView, TableStateView};
use crate::incremental::table::{
    BracketPosition, ChunkRow, EventMark, SnapshotTable, StreamPosition,
};
use crate::json;
use crate::json::Json;
use crate::text;

verus! {

/// The most events that one delivery takes from a queue.
pub const EMIT_BATCH_SIZE: usize = 1_000;

/// The longest that one look at the stream may wait while a chunk is open, so that a quiet
/// database still lets the watermark be checked again.
pub const COLLECT_POLL_CEILING_MS: u64 = 100;

/// Progress of one table.
pub struct TableProgress {
    pub spec: SnapshotTable,
    /// Primary-key values of the last row of the last fully delivered chunk. This is the durable
    /// cursor: it never runs ahead of what the consumer has been handed.
    pub pk_cursor: Option<Vec<serde_json::Value>>,
    pub is_complete: bool,
    pub chunks_emitted: u32,
    pub rows_emitted: u64,
}

/// Where the driver stands.
pub enum Phase<P> {
    /// The next chunk is to be read.
    ChunkPrepare { table_idx: usize },
    /// A chunk is buffered; the stream is looked at up to its high watermark.
    ChunkCollect {
        table_idx: usize,
        low_watermark: P,
        high_watermark: P,
        /// The chunk rows by their identities. They double as the shadow images from which
        /// partial live payloads are repaired.
        chunk_rows: Vec<(String, Event)>,
        /// The place of each identity in `chunk_rows`.
        chunk_index_by_key: ahash::AHashMap<String, usize>,
        /// The identities of the rows that a live event superseded, each once.
        override_pks: Vec<String>,
        /// The cursor that this chunk ends at, held back until the chunk is delivered.
        next_cursor: Vec<serde_json::Value>,
    },
    /// Merged chunk rows await delivery.
    ChunkEmit {
        table_idx: usize,
        events: VecDeque<Event>,
        /// The cursor to make durable once `events` is empty.
        next_cursor: Vec<serde_json::Value>,
        row_count: u64,
    },
    /// Every table is complete; the stream passes through.
    Done,
}

/// What the caller is to do next.
pub enum DriveStep {
    /// Hand these events to the consumer.
    Deliver(Vec<Event>),
    /// Hand the consumer the next events of the live stream as they are.
    PassThrough { timeout_ms: u64 },
    /// Take the next events of the live stream and give them to `collect`.
    Collect { timeout_ms: u64 },
    /// Capture the position, read a chunk of the table past its cursor, capture the position
    /// again, and give all three to `chunk_read`.
    ReadChunk { table_idx: usize },
}

/// What follows a look at the stream.
pub enum CollectStep {
    /// Hand these events to the consumer.
    Deliver(Vec<Event>),
    /// Nothing came: capture the position and give it to `collect_quiet`.
    AskPosition,
    /// Drive on.
    Continue,
}

/// A snapshot interleaved with a live stream.
pub struct IncrementalSnapshotDriver<P> {
    pub tables: Vec<TableProgress>,
    pub phase: Phase<P>,
    pub chunk_size: usize,
    /// The configured row filters.
    pub table_conditions: ahash::AHashMap<String, String>,
    pub source_name: String,
    pub snapshot_id: String,
    /// Events handed to the consumer.
    pub events_emitted: u64,
    /// Chunk reading is suspended; the live stream continues.
    pub paused: bool,
    /// How many times work has been requested. It is part of a snapshot row's offset, so that a
    /// deliberate re-snapshot is not mistaken for a replay.
    pub generation: u32,
    /// The snapshot was abandoned, and stays so over a restart.
    pub stopped: bool,
    /// Log events past the current chunk's high watermark, held back until the chunk is out.
    pub deferred: VecDeque<Event>,
}

// Models

/// The place of the first table with work outstanding, or the number of tables.
pub open spec fn first_incomplete(tables: Seq<TableProgress>) -> int
    decreases tables.len(),
{
    if tables.len() == 0 || !tables[0].is_complete {
        0
    } else {
        1 + first_incomplete(tables.drop_first())
    }
}

/// How many tables have work outstanding.
pub open spec fn incomplete_count(tables: Seq<TableProgress>) -> nat
    decreases tables.len(),
{
    if tables.len() == 0 {
        0
    } else {
        incomplete_count(tables.drop_last()) + (if tables.last().is_complete {
            0nat
        } else {
            1nat
        })
    }
}

/// The place of the first table under a key, or the number of tables.
pub open spec fn table_place(tables: Seq<TableProgress>, key: Seq<char>) -> int
    decreases tables.len(),
{
    if tables.len() == 0 || tables[0].spec.key_text() == key {
        0
    } else {
        1 + table_place(tables.drop_first(), key)
    }
}

/// A table of which nothing has been read.
pub open spec fn fresh(spec: SnapshotTable) -> TableProgress {
    TableProgress { spec, pk_cursor: None, is_complete: false, chunks_emitted: 0, rows_emitted: 0 }
}

/// The tables after one is requested: added where it is not tracked, read again where it is
/// complete, left alone where it is in progress.
pub open spec fn enqueued(tables: Seq<TableProgress>, spec: SnapshotTable) -> Seq<TableProgress> {
    let place = table_place(tables, spec.key_text());
    if place >= tables.len() {
        tables.push(fresh(spec))
    } else if tables[place].is_complete {
        tables.update(place, fresh(spec))
    } else {
        tables
    }
}

/// Whether a request for a table starts work.
pub open spec fn starts_work(tables: Seq<TableProgress>, spec: SnapshotTable) -> bool {
    let place = table_place(tables, spec.key_text());
    place >= tables.len() || tables[place].is_complete
}

/// The tables after several are requested in order.
pub open spec fn enqueued_all(tables: Seq<TableProgress>, specs: Seq<SnapshotTable>) -> Seq<
    TableProgress,
>
    decreases specs.len(),
{
    if specs.len() == 0 {
        tables
    } else {
        enqueued(enqueued_all(tables, specs.drop_last()), specs.last())
    }
}

/// How many of several requests, in order, start work.
pub open spec fn started(tables: Seq<TableProgress>, specs: Seq<SnapshotTable>) -> nat
    decreases specs.len(),
{
    if specs.len() == 0 {
        0
    } else {
        started(tables, specs.drop_last()) + (if starts_work(
            enqueued_all(tables, specs.drop_last()),
            specs.last(),
        ) {
            1nat
        } else {
            0nat
        })
    }
}

/// A table after a chunk of it has been delivered in full.
pub open spec fn committed(
    table: TableProgress,
    next_cursor: Vec<serde_json::Value>,
    row_count: u64,
) -> TableProgress {
    TableProgress {
        spec: table.spec,
        pk_cursor: if next_cursor@.len() > 0 {
            Some(next_cursor)
        } else {
            table.pk_cursor
        },
        is_complete: table.is_complete,
        chunks_emitted: if table.chunks_emitted == u32::MAX {
            u32::MAX
        } else {
            (table.chunks_emitted + 1) as u32
        },
        rows_emitted: if table.rows_emitted + row_count > u64::MAX {
            u64::MAX
        } else {
            (table.rows_emitted + row_count) as u64
        },
    }
}

/// The table that the next chunk is read of: the one that the phase names while it has work,
/// else the first that has. `tables.len()` where none has.
pub open spec fn chosen_table(tables: Seq<TableProgress>, table_idx: usize) -> int {
    if table_idx < tables.len() && !tables[table_idx as int].is_complete {
        table_idx as int
    } else {
        first_incomplete(tables)
    }
}

/// What the chunk rows hold.
pub open spec fn chunk_view(rows: Seq<(String, Event)>) -> Seq<(Seq<char>, EventView)> {
    rows.map_values(|row: (String, Event)| (row.0@, row.1@))
}

/// Whether the index gives, for each identity, a chunk row with it.
pub open spec fn index_fits(
    chunk: Seq<(Seq<char>, EventView)>,
    index: Map<Seq<char>, usize>,
) -> bool {
    &&& forall|id: Seq<char>| #[trigger]
        index.contains_key(id) ==> index[id] < chunk.len() && chunk[index[id] as int].0 == id
    &&& forall|i: int| 0 <= i < chunk.len() ==> index.contains_key(#[trigger] chunk[i].0)
}

/// The chunk rows that nothing superseded, in chunk order.
pub open spec fn surviving(rows: Seq<(String, Event)>, overrides: Seq<Seq<char>>) -> Seq<Event>
    decreases rows.len(),
{
    if rows.len() == 0 {
        Seq::empty()
    } else {
        let before = surviving(rows.drop_last(), overrides);
        if overrides.contains(rows.last().0@) {
            before
        } else {
            before.push(rows.last().1)
        }
    }
}

/// Whether an event is of the table; one without a schema counts as of the table's schema.
pub open spec fn of_table(event: EventView, schema: Seq<char>, name: Seq<char>) -> bool {
    event.table == name && (match event.schema {
        Some(theirs) => theirs == schema,
        None => true,
    })
}

/// Whether an event supersedes its row in the chunk of the table.
pub open spec fn supersedes<P>(
    event: EventView,
    mark: Option<EventMark<P>>,
    schema: Seq<char>,
    name: Seq<char>,
) -> bool {
    &&& of_table(event, schema, name)
    &&& mark matches Some(m) && m.bracket == BracketPosition::Inside
}

/// A chunk, the identities superseded in it, and the events looked at so far.
pub struct Collected {
    pub chunk: Seq<(Seq<char>, EventView)>,
    pub overrides: Seq<Seq<char>>,
    pub events: Seq<EventView>,
}

/// A list with an identity in it.
pub open spec fn with_id(ids: Seq<Seq<char>>, id: Seq<char>) -> Seq<Seq<char>> {
    if ids.contains(id) {
        ids
    } else {
        ids.push(id)
    }
}

/// The effect of an event that supersedes its row: the row's identity is noted; where the chunk
/// has the row, the event is repaired from its image and the image brought up to date.
pub open spec fn absorbed(
    chunk: Seq<(Seq<char>, EventView)>,
    index: Map<Seq<char>, usize>,
    overrides: Seq<Seq<char>>,
    event: EventView,
) -> Collected {
    match fingerprint::event_identity(event) {
        None => Collected { chunk, overrides, events: seq![event] },
        Some(id) => {
            let noted = with_id(overrides, id);
            if index.contains_key(id) {
                let place = index[id] as int;
                match chunk[place].1.after {
                    Some(Json::Object(shadow)) => {
                        let mended = repair::repaired(event, shadow);
                        let image = EventView {
                            after: Some(Json::Object(repair::refreshed(shadow, mended))),
                            ..chunk[place].1
                        };
                        Collected {
                            chunk: chunk.update(place, (chunk[place].0, image)),
                            overrides: noted,
                            events: seq![mended],
                        }
                    },
                    _ => Collected { chunk, overrides: noted, events: seq![event] },
                }
            } else {
                Collected { chunk, overrides: noted, events: seq![event] }
            }
        },
    }
}

/// The effect of a batch of events, in order.
pub open spec fn collected<P>(
    chunk: Seq<(Seq<char>, EventView)>,
    index: Map<Seq<char>, usize>,
    overrides: Seq<Seq<char>>,
    events: Seq<EventView>,
    marks: Seq<Option<EventMark<P>>>,
    schema: Seq<char>,
    name: Seq<char>,
) -> Collected
    decreases events.len(),
{
    if events.len() == 0 {
        Collected { chunk, overrides, events: Seq::empty() }
    } else {
        let before = collected(
            chunk,
            index,
            overrides,
            events.drop_last(),
            marks.drop_last(),
            schema,
            name,
        );
        if supersedes(events.last(), marks.last(), schema, name) {
            let one = absorbed(before.chunk, index, before.overrides, events.last());
            Collected { events: before.events + one.events, ..one }
        } else {
            Collected { events: before.events.push(events.last()), ..before }
        }
    }
}

/// The place of the first event after the high watermark, or the number of events.
pub open spec fn first_after<P>(marks: Seq<Option<EventMark<P>>>) -> int
    decreases marks.len(),
{
    if marks.len() == 0 {
        0
    } else if marks[0] matches Some(m) && m.bracket == BracketPosition::After {
        0
    } else {
        1 + first_after(marks.drop_first())
    }
}

/// Whether some event of the batch is at or past the high watermark.
pub open spec fn reaches<P: StreamPosition>(marks: Seq<Option<EventMark<P>>>, high: P) -> bool {
    exists|i: int|
        0 <= i < marks.len() && (#[trigger] marks[i] matches Some(m) && m.position.rank()
            >= high.rank())
}

/// The event that a chunk row becomes.
pub open spec fn snapshot_event(
    spec: SnapshotTable,
    source_name: Seq<char>,
    snapshot_id: Seq<char>,
    generation: u32,
    chunk_index: u32,
    row: Json,
    now: u64,
) -> EventView {
    let columns = text::texts(spec.pk_columns@);
    EventView {
        before: BeforeView::Unavailable,
        after: Some(row),
        op: Operation::Read,
        source: SourceView {
            source_name,
            offset: "incremental:"@ + text::decimal_text(generation as nat) + ":"@
                + spec.qualified@ + ":"@ + fingerprint::row_fingerprint(spec.name@, columns, row),
            timestamp: now,
        },
        ts: now,
        schema: Some(spec.schema@),
        table: spec.name@,
        primary_key: Some(columns),
        snapshot: Some(SnapshotView { snapshot_id, chunk_index, is_last_chunk: false }),
        transaction: None,
        envelope_version: EVENT_ENVELOPE_VERSION,
        schema_id: None,
        unavailable_columns: Seq::empty(),
    }
}

/// The chunk that rows become, each under its identity.
pub open spec fn chunk_of(
    rows: Seq<ChunkRow>,
    spec: SnapshotTable,
    source_name: Seq<char>,
    snapshot_id: Seq<char>,
    generation: u32,
    chunk_index: u32,
    now: u64,
) -> Seq<(Seq<char>, EventView)> {
    rows.map_values(
        |row: ChunkRow|
            (
                fingerprint::row_fingerprint(
                    spec.name@,
                    text::texts(spec.pk_columns@),
                    json::json(row.row),
                ),
                snapshot_event(
                    spec,
                    source_name,
                    snapshot_id,
                    generation,
                    chunk_index,
                    json::json(row.row),
                    now,
                ),
            ),
    )
}

/// The first `EMIT_BATCH_SIZE` events of a queue.
pub open spec fn batch_size(queue: Seq<Event>) -> int {
    if queue.len() < EMIT_BATCH_SIZE {
        queue.len() as int
    } else {
        EMIT_BATCH_SIZE as int
    }
}

/// The durable record of a table's progress.
pub open spec fn progress_view(table: TableProgress) -> TableStateView {
    TableStateView {
        table: table.spec.key_text(),
        pk_cursor: state::cursor_view(table.pk_cursor),
        is_complete: table.is_complete,
        chunks_emitted: table.chunks_emitted,
        rows_emitted: table.rows_emitted,
        condition: text::text_option(table.spec.condition),
    }
}

/// The durable records of some tables' progress.
pub open spec fn progress_views(tables: Seq<TableProgress>) -> Seq<TableStateView> {
    tables.map_values(|table: TableProgress| progress_view(table))
}

impl<P> IncrementalSnapshotDriver<P> {
    /// The driver's own consistency: a phase that works on a table names one, and the index of
    /// an open chunk fits the chunk.
    pub open spec fn wf(self) -> bool {
        &&& self.chunk_size >= 1
        &&& match self.phase {
            Phase::ChunkCollect { table_idx, chunk_rows, chunk_index_by_key, .. } => {
                &&& table_idx < self.tables@.len()
                &&& index_fits(chunk_view(chunk_rows@), row_index::places(chunk_index_by_key))
            },
            Phase::ChunkEmit { table_idx, .. } => table_idx < self.tables@.len(),
            _ => true,
        }
    }

    /// The durable record of the whole snapshot.
    pub open spec fn state_view(self) -> StateView {
        StateView {
            snapshot_id: self.snapshot_id@,
            paused: self.paused,
            stopped: self.stopped,
            generation: self.generation,
            tables: progress_views(self.tables@),
        }
    }

    /// The same but for its tables, phase and held-back events.
    pub open spec fn same_settings(self, other: Self) -> bool {
        &&& self.chunk_size == other.chunk_size
        &&& self.table_conditions == other.table_conditions
        &&& self.source_name == other.source_name
        &&& self.snapshot_id == other.snapshot_id
        &&& self.events_emitted == other.events_emitted
        &&& self.paused == other.paused
        &&& self.generation == other.generation
        &&& self.stopped == other.stopped
    }
}

} // verus!
