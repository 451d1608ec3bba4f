//! The bulk snapshot of a PostgreSQL source: chunk after chunk, table after table.
//!
//! The handle does no I/O. [`PostgresSnapshotHandle::fill`] builds a chunk as far as it can and says
//! which rows it needs next; [`PostgresSnapshotHandle::take_live_rows`] takes them in;
//! [`PostgresSnapshotHandle::finish_chunk`] closes the chunk.
use vstd::prelude::*;
use crate::event;
use crate::event::{
    BeforeImage, BeforeView, Event, EventView, Operation, SnapshotMetadata, SnapshotView,
    SourceMetadata, SourceView, EVENT_ENVELOPE_VERSION,
};
use crate::json;
use crate::json::Json;
use crate::postgres::lsn;
use crate::postgres::parser;
use crate::schema;
use crate::schema::{CapturedDdl, CatalogColumn, CatalogColumnView, DdlView, ShapeView};
use crate::text;

verus! {

/// The chunk size where the caller names none.
pub const DEFAULT_SNAPSHOT_CHUNK_SIZE: usize = 5_000;

/// Per-table progress within a bulk snapshot.
#[derive(Debug, PartialEq, Eq)]
pub struct TableSnapshot {
    /// Table in `schema.table` form.
    pub table: String,
    /// Row count observed when the snapshot began: a progress denominator.
    pub total_rows: u64,
    /// Rows emitted so far.
    pub rows_processed: u64,
    /// Keyset cursor for resuming this table; `None` before the first chunk.
    pub cursor_position: Option<String>,
    /// Whether this table has been read to exhaustion.
    pub is_complete: bool,
}

/// What a [`TableSnapshot`] holds.
pub struct TableSnapshotView {
    pub table: Seq<char>,
    pub total_rows: u64,
    pub rows_processed: u64,
    pub cursor_position: Option<Seq<char>>,
    pub is_complete: bool,
}

impl View for TableSnapshot {
    type V = TableSnapshotView;

    open spec fn view(&self) -> TableSnapshotView {
        TableSnapshotView {
            table: self.table@,
            total_rows: self.total_rows,
            rows_processed: self.rows_processed,
            cursor_position: text::text_option(self.cursor_position),
            is_complete: self.is_complete,
        }
    }
}

impl Clone for TableSnapshot {
    fn clone(&self) -> (copy: Self)
        ensures
            copy@ == self@,
    {
        TableSnapshot {
            table: self.table.clone(),
            total_rows: self.total_rows,
            rows_processed: self.rows_processed,
            cursor_position: text::clone_text_option(&self.cursor_position),
            is_complete: self.is_complete,
        }
    }
}

/// What each of some tables' progress holds.
pub open spec fn snapshot_views(tables: Seq<TableSnapshot>) -> Seq<TableSnapshotView> {
    tables.map_values(|table: TableSnapshot| table@)
}

/// Durable state of a PostgreSQL bulk snapshot.
#[derive(Debug, PartialEq, Eq)]
pub struct PostgresSnapshot {
    /// Per-table progress.
    pub tables: Vec<TableSnapshot>,
    /// The identifier that every emitted row carries.
    pub snapshot_id: String,
    /// Unix milliseconds when the snapshot started.
    pub snapshot_start_ts: u64,
    /// Unix milliseconds when the snapshot finished; zero while it goes on.
    pub snapshot_end_ts: u64,
}

/// A table being read.
pub struct TableSnapshotState {
    pub snapshot: TableSnapshot,
    /// The rows of a table that is not read from the server.
    pub rows: Vec<serde_json::Value>,
    pub next_row: usize,
    /// Whether rows come from the server, by key.
    pub live_query: bool,
    pub primary_key_columns: Vec<String>,
    /// The types of the key columns, in key order.
    pub primary_key_types: Vec<String>,
    /// The declared columns; empty where no catalog was read.
    pub catalog_columns: Vec<CatalogColumn>,
    /// Whether this run has announced the table's shape.
    pub schema_announced: bool,
    /// The identity of the announced shape, which the table's rows name.
    pub schema_id: Option<String>,
}

/// What a [`TableSnapshotState`] holds.
pub struct TableView {
    pub snapshot: TableSnapshotView,
    pub keys: Seq<Seq<char>>,
    pub key_types: Seq<Seq<char>>,
    pub rows: Seq<Json>,
    pub next_row: int,
    pub live: bool,
    pub columns: Seq<CatalogColumnView>,
    pub announced: bool,
    pub schema_id: Option<Seq<char>>,
}

impl View for TableSnapshotState {
    type V = TableView;

    open spec fn view(&self) -> TableView {
        TableView {
            snapshot: self.snapshot@,
            keys: text::texts(self.primary_key_columns@),
            key_types: text::texts(self.primary_key_types@),
            rows: json::jsons(self.rows@),
            next_row: self.next_row as int,
            live: self.live_query,
            columns: schema::catalog_views(self.catalog_columns@),
            announced: self.schema_announced,
            schema_id: text::text_option(self.schema_id),
        }
    }
}

/// What each of some tables holds.
pub open spec fn table_views(tables: Seq<TableSnapshotState>) -> Seq<TableView> {
    tables.map_values(|table: TableSnapshotState| table@)
}

/// A PostgreSQL bulk snapshot in progress.
pub struct PostgresSnapshotHandle {
    pub source_name: String,
    pub snapshot: PostgresSnapshot,
    pub tables: Vec<TableSnapshotState>,
    /// Whether there is a connection to read live rows with.
    pub connected: bool,
    pub transaction_open: bool,
    /// The place in the log that the snapshot was taken at.
    pub snapshot_watermark: u64,
    pub current_table: usize,
    pub next_chunk_index: u32,
    pub emitted_rows: u64,
    /// The rows emitted since the handle was made or resumed.
    pub emitted_in_run: u64,
}

/// What changes while a snapshot is read.
pub struct SnapView {
    pub tables: Seq<TableView>,
    pub current: nat,
    pub chunk_index: u32,
    pub emitted: u64,
    pub emitted_in_run: u64,
}

/// What stays the same while a snapshot is read.
pub struct SnapSettings {
    pub source_name: Seq<char>,
    pub snapshot_id: Seq<char>,
    pub watermark: u64,
    /// Whether there is a connection to read live rows with.
    pub connected: bool,
}

impl PostgresSnapshotHandle {
    /// What changes while the snapshot is read.
    pub open spec fn progress(self) -> SnapView {
        SnapView {
            tables: table_views(self.tables@),
            current: self.current_table as nat,
            chunk_index: self.next_chunk_index,
            emitted: self.emitted_rows,
            emitted_in_run: self.emitted_in_run,
        }
    }

    /// What stays the same while the snapshot is read.
    pub open spec fn settings(self) -> SnapSettings {
        SnapSettings {
            source_name: self.source_name@,
            snapshot_id: self.snapshot.snapshot_id@,
            watermark: self.snapshot_watermark,
            connected: self.connected,
        }
    }

    /// No table is read past its rows.
    pub open spec fn wf(self) -> bool {
        forall|i: int|
            0 <= i < self.tables@.len() ==> (#[trigger] self.tables@[i]).next_row
                <= self.tables@[i].rows@.len()
    }

    /// The same apart from what [`PostgresSnapshotHandle::progress`] says.
    pub open spec fn same_otherwise(self, other: Self) -> bool {
        &&& self.source_name == other.source_name
        &&& self.snapshot == other.snapshot
        &&& self.connected == other.connected
        &&& self.transaction_open == other.transaction_open
        &&& self.snapshot_watermark == other.snapshot_watermark
    }

    /// The durable record says of each table how far it was read, and when the last of them was
    /// exhausted; otherwise it says what it said in another state of the handle.
    pub open spec fn recorded(self, other: Self, now: u64) -> bool {
        &&& snapshot_views(self.snapshot.tables@) == self.progress().tables.map_values(
            |table: TableView| table.snapshot,
        )
        &&& self.snapshot.snapshot_end_ts == (if all_complete(self.progress().tables) {
            now
        } else {
            other.snapshot.snapshot_end_ts
        })
        &&& self.snapshot.snapshot_start_ts == other.snapshot.snapshot_start_ts
    }
}

/// A sum of counts, at most the largest count.
pub open spec fn counted(count: u64, more: int) -> u64 {
    if count + more > u64::MAX {
        u64::MAX
    } else {
        (count + more) as u64
    }
}

/// The tag of a row of the current chunk.
pub open spec fn chunk_tag(settings: SnapSettings, state: SnapView) -> Option<SnapshotView> {
    Some(
        SnapshotView {
            snapshot_id: settings.snapshot_id,
            chunk_index: state.chunk_index,
            is_last_chunk: false,
        },
    )
}

/// The schema and the bare name of a table. Rows carry what the stream's events carry of it.
pub open spec fn name_of(table: TableView) -> (Seq<char>, Seq<char>) {
    parser::configured_table(table.snapshot.table)
}

/// The event of a row.
pub open spec fn row_event(
    settings: SnapSettings,
    state: SnapView,
    table: TableView,
    offset: Seq<char>,
    row: Json,
    now: u64,
) -> EventView {
    EventView {
        before: BeforeView::Unavailable,
        after: Some(row),
        op: Operation::Read,
        source: SourceView { source_name: settings.source_name, offset, timestamp: now },
        ts: now,
        schema: Some(name_of(table).0),
        table: name_of(table).1,
        primary_key: if table.keys.len() == 0 {
            None
        } else {
            Some(table.keys)
        },
        snapshot: chunk_tag(settings, state),
        transaction: None,
        envelope_version: EVENT_ENVELOPE_VERSION,
        schema_id: table.schema_id,
        unavailable_columns: Seq::empty(),
    }
}

/// The cursor of a row that is not read live: its table's place and its own.
pub open spec fn row_cursor(table_index: nat, place: int) -> Seq<char> {
    text::decimal_text(table_index) + ":"@ + text::decimal_text(place as nat)
}

/// The offset of a row that is not read from the server.
pub open spec fn row_offset(table_index: nat, table: TableView, place: int) -> Seq<char> {
    if table.live {
        table.snapshot.table + ":offline:"@ + text::decimal_text(place as nat)
    } else {
        row_cursor(table_index, place)
    }
}

/// The offset of a live row: its table and its key.
pub open spec fn live_offset(table: TableView, cursor: Seq<char>) -> Seq<char> {
    table.snapshot.table + ":"@ + cursor
}

/// The shape that a table is announced with.
pub open spec fn announced_shape(table: TableView) -> ShapeView {
    schema::catalog_shape(name_of(table).0, name_of(table).1, table.columns, table.keys)
}

/// The announcement of a table's shape, true as of the snapshot's place in the log.
pub open spec fn announcement(
    settings: SnapSettings,
    state: SnapView,
    table: TableView,
    now: u64,
) -> EventView {
    let ddl = DdlView {
        ddl_type: schema::DDL_TYPE_READ_SCHEMA@,
        schema: name_of(table).0,
        table: name_of(table).1,
        statement: schema::observation(
            name_of(table).0,
            name_of(table).1,
            "the PostgreSQL catalog"@,
        ),
        result_schema: Some(announced_shape(table)),
        ts: now,
    };
    EventView {
        snapshot: chunk_tag(settings, state),
        ..schema::ddl_event(
            ddl,
            settings.source_name,
            lsn::lsn_text(settings.watermark),
            now,
        )
    }
}

/// The state and the chunk once the current table's shape is announced, where it is due.
pub open spec fn announced(
    settings: SnapSettings,
    state: SnapView,
    events: Seq<EventView>,
    now: u64,
) -> (SnapView, Seq<EventView>) {
    let place = state.current as int;
    let table = state.tables[place];
    if table.announced {
        (state, events)
    } else {
        if table.columns.len() == 0 {
            (
                SnapView {
                    tables: state.tables.update(place, TableView { announced: true, ..table }),
                    ..state
                },
                events,
            )
        } else {
            (
                SnapView {
                    tables: state.tables.update(
                        place,
                        TableView {
                            announced: true,
                            schema_id: Some(schema::shape_text(announced_shape(table))),
                            ..table
                        },
                    ),
                    ..state
                },
                events.push(announcement(settings, state, table, now)),
            )
        }
    }
}

/// How many rows of a table that is not read live still fit a chunk.
pub open spec fn fitting(table: TableView, events: int, requested: int) -> int {
    let left = table.rows.len() - table.next_row;
    if events + left <= requested {
        left
    } else if events >= requested {
        0
    } else {
        requested - events
    }
}

/// The rows of the current table, from the next on, as events.
pub open spec fn row_events(
    settings: SnapSettings,
    state: SnapView,
    count: int,
    now: u64,
) -> Seq<EventView> {
    let table = state.tables[state.current as int];
    Seq::new(
        count as nat,
        |k: int|
            row_event(
                settings,
                state,
                table,
                row_offset(state.current, table, table.next_row + k),
                table.rows[table.next_row + k],
                now,
            ),
    )
}

/// The state once rows of the current table have been emitted.
pub open spec fn with_rows(state: SnapView, count: int) -> SnapView {
    let place = state.current as int;
    let table = state.tables[place];
    let read = TableView {
        snapshot: TableSnapshotView {
            rows_processed: counted(table.snapshot.rows_processed, count),
            cursor_position: if count > 0 && !table.live {
                Some(row_cursor(state.current, table.next_row + count - 1))
            } else {
                table.snapshot.cursor_position
            },
            ..table.snapshot
        },
        next_row: table.next_row + count,
        ..table
    };
    SnapView {
        tables: state.tables.update(place, read),
        emitted: counted(state.emitted, count),
        emitted_in_run: counted(state.emitted_in_run, count),
        ..state
    }
}

/// The state once the current table is complete.
pub open spec fn past_table(state: SnapView) -> SnapView {
    let place = state.current as int;
    let table = state.tables[place];
    SnapView {
        tables: state.tables.update(
            place,
            TableView {
                snapshot: TableSnapshotView { is_complete: true, ..table.snapshot },
                ..table
            },
        ),
        current: state.current + 1,
        ..state
    }
}

/// What a chunk needs next.
pub enum StepView {
    /// Nothing: the chunk is full, or every table has been read.
    Done,
    /// At most `limit` rows of a table, past its cursor.
    Fetch { table_index: int, cursor: Option<Seq<char>>, limit: int },
}

/// The state and the chunk after filling it as far as it goes without live rows, and what it
/// needs next. A chunk that an announcement has filled asks for no rows, so that an empty answer
/// always means that the table is exhausted; a table that had no rows to begin with needs none.
pub open spec fn filled(
    settings: SnapSettings,
    state: SnapView,
    events: Seq<EventView>,
    requested: usize,
    now: u64,
) -> (SnapView, Seq<EventView>, StepView)
    decreases state.tables.len() - state.current,
{
    if events.len() >= requested || state.current >= state.tables.len() {
        (state, events, StepView::Done)
    } else {
        let (next, more) = announced(settings, state, events, now);
        let table = next.tables[next.current as int];
        if table.live && settings.connected {
            if more.len() >= requested {
                if table.snapshot.is_complete {
                    (past_table(next), more, StepView::Done)
                } else {
                    (next, more, StepView::Done)
                }
            } else {
                (
                    next,
                    more,
                    StepView::Fetch {
                        table_index: next.current as int,
                        cursor: table.snapshot.cursor_position,
                        limit: requested - more.len(),
                    },
                )
            }
        } else {
            let count = fitting(table, more.len() as int, requested as int);
            let read = with_rows(next, count);
            let all = more + row_events(settings, next, count, now);
            if table.next_row + count >= table.rows.len() {
                filled(settings, past_table(read), all, requested, now)
            } else {
                (read, all, StepView::Done)
            }
        }
    }
}

/// Live rows as events.
pub open spec fn live_events(
    settings: SnapSettings,
    state: SnapView,
    rows: Seq<(Vec<String>, serde_json::Value)>,
    now: u64,
) -> Seq<EventView> {
    rows.map_values(
        |row: (Vec<String>, serde_json::Value)|
            row_event(
                settings,
                state,
                state.tables[state.current as int],
                live_offset(
                    state.tables[state.current as int],
                    json::strings_text(text::texts(row.0@)),
                ),
                json::json(row.1),
                now,
            ),
    )
}

/// The state once live rows of the current table have been taken in; none mean that it is
/// complete.
pub open spec fn with_live_rows(
    state: SnapView,
    rows: Seq<(Vec<String>, serde_json::Value)>,
) -> SnapView {
    if rows.len() == 0 {
        past_table(state)
    } else {
        let place = state.current as int;
        let table = state.tables[place];
        SnapView {
            tables: state.tables.update(
                place,
                TableView {
                    snapshot: TableSnapshotView {
                        rows_processed: counted(
                            table.snapshot.rows_processed,
                            rows.len() as int,
                        ),
                        cursor_position: Some(
                            json::strings_text(text::texts(rows.last().0@)),
                        ),
                        ..table.snapshot
                    },
                    ..table
                },
            ),
            emitted: counted(state.emitted, rows.len() as int),
            emitted_in_run: counted(state.emitted_in_run, rows.len() as int),
            ..state
        }
    }
}

/// Whether every table has been read to exhaustion.
pub open spec fn all_complete(tables: Seq<TableView>) -> bool {
    forall|i: int| 0 <= i < tables.len() ==> (#[trigger] tables[i]).snapshot.is_complete
}

/// An event marked as of the last chunk.
pub open spec fn last_marked(one: EventView) -> EventView {
    EventView {
        snapshot: match one.snapshot {
            Some(tag) => Some(SnapshotView { is_last_chunk: true, ..tag }),
            None => None,
        },
        ..one
    }
}

/// A chunk as it is delivered: the last event of the last chunk says so.
pub open spec fn closed(events: Seq<EventView>, complete: bool) -> Seq<EventView> {
    if complete && events.len() > 0 {
        events.update(events.len() - 1, last_marked(events.last()))
    } else {
        events
    }
}

/// What a chunk needs next.
pub enum SnapshotStep {
    /// Nothing: the chunk is full, or every table has been read.
    Done,
    /// At most `limit` rows of a table, past its cursor.
    Fetch { table_index: usize, cursor: Option<String>, limit: usize },
}

impl View for SnapshotStep {
    type V = StepView;

    open spec fn view(&self) -> StepView {
        match self {
            SnapshotStep::Done => StepView::Done,
            SnapshotStep::Fetch { table_index, cursor, limit } => StepView::Fetch {
                table_index: *table_index as int,
                cursor: text::text_option(*cursor),
                limit: *limit as int,
            },
        }
    }
}

impl PostgresSnapshotHandle {
    /// A snapshot of which nothing has been read.
    pub fn new(
        source_name: String,
        snapshot: PostgresSnapshot,
        tables: Vec<TableSnapshotState>,
        connected: bool,
        transaction_open: bool,
        snapshot_watermark: u64,
    ) -> (handle: Self)
        ensures
            handle == (PostgresSnapshotHandle {
                source_name,
                snapshot,
                tables,
                connected,
                transaction_open,
                snapshot_watermark,
                current_table: 0,
                next_chunk_index: 0,
                emitted_rows: 0,
                emitted_in_run: 0,
            }),
    {
        PostgresSnapshotHandle {
            source_name,
            snapshot,
            tables,
            connected,
            transaction_open,
            snapshot_watermark,
            current_table: 0,
            next_chunk_index: 0,
            emitted_rows: 0,
            emitted_in_run: 0,
        }
    }

    /// Whether every table has been read to exhaustion.
    pub fn is_complete(&self) -> (yes: bool)
        ensures
            yes == all_complete(self.progress().tables),
    {
        let ghost views = table_views(self.tables@);
        let mut i: usize = 0;
        while i < self.tables.len()
            invariant
                i <= self.tables@.len(),
                views == table_views(self.tables@),
                forall|k: int| 0 <= k < i ==> (#[trigger] views[k]).snapshot.is_complete,
            decreases self.tables.len() - i,
        {
            proof {
                assert(views[i as int] == self.tables@[i as int]@);
            }
            if !self.tables[i].snapshot.is_complete {
                return false;
            }
            i = i + 1;
        }
        true
    }

    /// The chunk size to build, or `None` where the snapshot is complete and no chunk is due; the
    /// snapshot's end is noted then, where it is not yet.
    pub fn begin_chunk(&mut self, chunk_size: usize, now: u64) -> (requested: Option<usize>)
        requires
            old(self).wf(),
        ensures
            final(self).wf(),
            final(self).progress() == old(self).progress(),
            final(self).tables == old(self).tables,
            final(self).settings() == old(self).settings(),
            final(self).transaction_open == old(self).transaction_open,
            match requested {
                None => all_complete(old(self).progress().tables) && final(self).snapshot == (
                PostgresSnapshot {
                    snapshot_end_ts: if old(self).snapshot.snapshot_end_ts == 0 {
                        now
                    } else {
                        old(self).snapshot.snapshot_end_ts
                    },
                    ..old(self).snapshot
                }),
                Some(n) => !all_complete(old(self).progress().tables) && n == (if chunk_size
                    == 0 {
                    DEFAULT_SNAPSHOT_CHUNK_SIZE
                } else {
                    chunk_size
                }) && *final(self) == *old(self),
            },
    {
        if self.is_complete() {
            if self.snapshot.snapshot_end_ts == 0 {
                self.snapshot.snapshot_end_ts = now;
            }
            None
        } else if chunk_size == 0 {
            Some(DEFAULT_SNAPSHOT_CHUNK_SIZE)
        } else {
            Some(chunk_size)
        }
    }

    fn tag(&self) -> (tag: Option<SnapshotMetadata>)
        ensures
            event::snapshot_view(tag) == chunk_tag(self.settings(), self.progress()),
    {
        Some(
            SnapshotMetadata {
                snapshot_id: self.snapshot.snapshot_id.clone(),
                chunk_index: self.next_chunk_index,
                is_last_chunk: false,
            },
        )
    }

    fn build_row(&self, table_index: usize, offset: String, row: serde_json::Value, now: u64) -> (one:
        Event)
        requires
            table_index < self.tables@.len(),
        ensures
            one@ == row_event(
                self.settings(),
                self.progress(),
                self.tables@[table_index as int]@,
                offset@,
                json::json(row),
                now,
            ),
    {
        let table = &self.tables[table_index];
        let (schema_name, bare_table) = parser::split_qualified_table_name(
            table.snapshot.table.as_str(),
        );
        proof {
            assert(table@.keys.len() == table.primary_key_columns@.len());
        }
        let one = Event {
            before: BeforeImage::Unavailable,
            after: Some(row),
            op: Operation::Read,
            source: SourceMetadata {
                source_name: self.source_name.clone(),
                offset,
                timestamp: now,
            },
            ts: now,
            schema: Some(schema_name),
            table: bare_table,
            primary_key: if table.primary_key_columns.len() == 0 {
                None
            } else {
                Some(text::clone_texts(&table.primary_key_columns))
            },
            snapshot: self.tag(),
            transaction: None,
            envelope_version: EVENT_ENVELOPE_VERSION,
            schema_id: text::clone_text_option(&table.schema_id),
            unavailable_columns: Vec::new(),
        };
        proof {
            assert(one@.unavailable_columns =~= Seq::<Seq<char>>::empty());
        }
        one
    }

    /// Announces the current table's shape, where it is due.
    fn announce(&mut self, events: &mut Vec<Event>, now: u64)
        requires
            old(self).wf(),
            old(self).current_table < old(self).tables@.len(),
        ensures
            final(self).wf(),
            final(self).same_otherwise(*old(self)),
            final(self).tables@.len() == old(self).tables@.len(),
            (final(self).progress(), event::event_views(final(events)@)) == announced(
                old(self).settings(),
                old(self).progress(),
                event::event_views(old(events)@),
                now,
            ),
    {
        let place = self.current_table;
        let ghost start = self.progress();
        let ghost p = place as int;
        proof {
            assert(start.tables[p] == self.tables@[p]@);
            assert(start.tables[p].columns.len() == self.tables@[p].catalog_columns@.len());
        }
        if self.tables[place].schema_announced {
            return;
        }
        if self.tables[place].catalog_columns.len() > 0 {
            let table = &self.tables[place];
            let (schema_name, bare_table) = parser::split_qualified_table_name(
                table.snapshot.table.as_str(),
            );
            let shape = schema::table_schema_from_catalog(
                schema_name.as_str(),
                bare_table.as_str(),
                &table.catalog_columns,
                &table.primary_key_columns,
            );
            let id = schema::schema_id(&shape);
            let statement = schema::observed_statement(
                schema_name.as_str(),
                bare_table.as_str(),
                "the PostgreSQL catalog",
            );
            let captured = CapturedDdl {
                ddl_type: schema::DDL_TYPE_READ_SCHEMA.to_owned(),
                schema: schema_name,
                table: bare_table,
                statement,
                result_schema: Some(shape),
                ts: now,
            };
            let mut one = captured.to_event(
                self.source_name.as_str(),
                lsn::format_pg_lsn(self.snapshot_watermark),
                now,
            );
            one.snapshot = self.tag();
            let ghost before = event::event_views(events@);
            let ghost seen = one@;
            events.push(one);
            proof {
                assert(event::event_views(events@) =~= before.push(seen));
            }
            self.tables[place].schema_id = Some(id);
        }
        self.tables[place].schema_announced = true;
        proof {
            assert(self.progress().tables =~= announced(
                old(self).settings(),
                start,
                event::event_views(old(events)@),
                now,
            ).0.tables);
        }
    }

    fn offset_of(&self, table_index: usize, place: usize) -> (offset: String)
        requires
            table_index < self.tables@.len(),
        ensures
            offset@ == row_offset(
                table_index as nat,
                self.tables@[table_index as int]@,
                place as int,
            ),
    {
        let table = &self.tables[table_index];
        if table.live_query {
            text::join3(
                table.snapshot.table.as_str(),
                ":offline:",
                text::decimal(place as u64).as_str(),
            )
        } else {
            text::join3(
                text::decimal(table_index as u64).as_str(),
                ":",
                text::decimal(place as u64).as_str(),
            )
        }
    }

    /// Emits the rows of the current table that still fit the chunk.
    fn emit_rows(&mut self, events: &mut Vec<Event>, requested: usize, now: u64)
        requires
            old(self).wf(),
            old(self).current_table < old(self).tables@.len(),
        ensures
            final(self).wf(),
            final(self).same_otherwise(*old(self)),
            final(self).tables@.len() == old(self).tables@.len(),
            ({
                let state = old(self).progress();
                let table = state.tables[state.current as int];
                let count = fitting(table, old(events)@.len() as int, requested as int);
                &&& 0 <= count <= table.rows.len() - table.next_row
                &&& final(self).progress() == with_rows(state, count)
                &&& event::event_views(final(events)@) == event::event_views(old(events)@)
                    + row_events(old(self).settings(), state, count, now)
            }),
    {
        let place = self.current_table;
        let ghost p = place as int;
        let ghost state = self.progress();
        let ghost settings = self.settings();
        let ghost table = state.tables[p];
        let ghost lead = event::event_views(events@);
        proof {
            assert(table == self.tables@[p]@);
            assert(table.rows.len() == self.tables@[p].rows@.len());
        }
        let left = self.tables[place].rows.len() - self.tables[place].next_row;
        let count = if events.len() >= requested {
            0
        } else if left <= requested - events.len() {
            left
        } else {
            requested - events.len()
        };
        proof {
            assert(count as int == fitting(table, lead.len() as int, requested as int));
        }
        let first = self.tables[place].next_row;
        let size = self.tables[place].rows.len();
        let ghost whole = row_events(settings, state, count as int, now);
        let mut k: usize = 0;
        proof {
            assert(lead + whole.take(0) =~= lead);
        }
        while k < count
            invariant
                k <= count,
                place < self.tables@.len(),
                p == place,
                self.progress() == state,
                self.settings() == settings,
                size == self.tables@[p].rows@.len(),
                first + count <= size,
                first == table.next_row,
                table == state.tables[p],
                state.current == place,
                whole == row_events(settings, state, count as int, now),
                whole.len() == count,
                event::event_views(events@) == lead + whole.take(k as int),
            decreases count - k,
        {
            let ghost before = event::event_views(events@);
            proof {
                assert(state.tables[p] == self.tables@[p]@);
                assert(table.rows[first + k] == json::json(self.tables@[p].rows@[first + k]));
            }
            let offset = self.offset_of(place, first + k);
            let row = self.tables[place].rows[first + k].clone();
            let one = self.build_row(place, offset, row, now);
            let ghost seen = one@;
            events.push(one);
            proof {
                assert(whole[k as int] == seen);
                assert(event::event_views(events@) =~= before.push(seen));
                assert(lead + whole.take(k + 1) =~= (lead + whole.take(k as int)).push(seen));
            }
            k = k + 1;
        }
        proof {
            assert(whole.take(count as int) =~= whole);
        }
        let one = &mut self.tables[place];
        one.next_row = first + count;
        one.snapshot.rows_processed = one.snapshot.rows_processed.saturating_add(count as u64);
        if count > 0 && !one.live_query {
            one.snapshot.cursor_position = Some(
                text::join3(
                    text::decimal(place as u64).as_str(),
                    ":",
                    text::decimal((first + count - 1) as u64).as_str(),
                ),
            );
        }
        self.emitted_rows = self.emitted_rows.saturating_add(count as u64);
        self.emitted_in_run = self.emitted_in_run.saturating_add(count as u64);
        proof {
            assert(self.progress().tables =~= with_rows(state, count as int).tables);
        }
    }

    fn leave_table(&mut self)
        requires
            old(self).wf(),
            old(self).current_table < old(self).tables@.len(),
        ensures
            final(self).wf(),
            final(self).same_otherwise(*old(self)),
            final(self).tables@.len() == old(self).tables@.len(),
            final(self).progress() == past_table(old(self).progress()),
            final(self).current_table == old(self).current_table + 1,
    {
        let place = self.current_table;
        let ghost state = self.progress();
        proof {
            assert(state.tables[place as int] == self.tables@[place as int]@);
        }
        let total = self.tables.len();
        proof {
            assert(place < total);
        }
        self.tables[place].snapshot.is_complete = true;
        self.current_table = place + 1;
        proof {
            assert(self.progress().tables =~= past_table(state).tables);
        }
    }

    /// Fills a chunk as far as it goes without live rows, and says what it needs next; see
    /// [`filled`]. The chunk never holds more than was requested.
    pub fn fill(&mut self, events: &mut Vec<Event>, requested: usize, now: u64) -> (step:
        SnapshotStep)
        requires
            old(self).wf(),
            old(events)@.len() <= requested,
        ensures
            final(self).wf(),
            final(self).same_otherwise(*old(self)),
            final(self).tables@.len() == old(self).tables@.len(),
            (final(self).progress(), event::event_views(final(events)@), step@) == filled(
                old(self).settings(),
                old(self).progress(),
                event::event_views(old(events)@),
                requested,
                now,
            ),
            final(events)@.len() <= requested,
            step matches SnapshotStep::Fetch { table_index, cursor, limit } ==> table_index
                == final(self).current_table && table_index < final(self).tables@.len()
                && final(self).tables@[table_index as int].live_query && final(self).connected && limit > 0
                && final(events)@.len() + limit == requested,
    {
        let ghost settings = self.settings();
        let ghost goal = filled(
            settings,
            self.progress(),
            event::event_views(events@),
            requested,
            now,
        );
        while events.len() < requested && self.current_table < self.tables.len()
            invariant
                self.wf(),
                self.same_otherwise(*old(self)),
                settings == old(self).settings(),
                self.tables@.len() == old(self).tables@.len(),
                events@.len() <= requested,
                goal == filled(
                    settings,
                    old(self).progress(),
                    event::event_views(old(events)@),
                    requested,
                    now,
                ),
                filled(
                    settings,
                    self.progress(),
                    event::event_views(events@),
                    requested,
                    now,
                ) == goal,
            decreases self.tables@.len() - self.current_table,
        {
            let place = self.current_table;
            let ghost held = event::event_views(events@);
            self.announce(events, now);
            let ghost next = self.progress();
            let ghost more = event::event_views(events@);
            proof {
                assert(held.len() < requested);
                assert(more.len() == events@.len());
                assert(next.current == place);
                assert(next.tables[place as int] == self.tables@[place as int]@);
            }
            if self.tables[place].live_query && self.connected {
                if events.len() >= requested {
                    if self.tables[place].snapshot.is_complete {
                        self.leave_table();
                    }
                    return SnapshotStep::Done;
                }
                return SnapshotStep::Fetch {
                    table_index: place,
                    cursor: text::clone_text_option(&self.tables[place].snapshot.cursor_position),
                    limit: requested - events.len(),
                };
            }
            let ghost table = next.tables[place as int];
            self.emit_rows(events, requested, now);
            proof {
                assert(event::event_views(events@).len() == events@.len());
                assert(self.progress().tables[place as int] == self.tables@[place as int]@);
                assert(table.rows.len() == self.tables@[place as int].rows@.len());
            }
            if self.tables[place].next_row >= self.tables[place].rows.len() {
                self.leave_table();
            } else {
                return SnapshotStep::Done;
            }
        }
        proof {
            assert(event::event_views(events@).len() == events@.len());
        }
        SnapshotStep::Done
    }

    /// Takes in the live rows that a chunk asked for, each with its key values. No rows mean that
    /// the table is exhausted.
    pub fn take_live_rows(
        &mut self,
        events: &mut Vec<Event>,
        rows: Vec<(Vec<String>, serde_json::Value)>,
        now: u64,
    )
        requires
            old(self).wf(),
            old(self).current_table < old(self).tables@.len(),
        ensures
            final(self).wf(),
            final(self).same_otherwise(*old(self)),
            final(self).tables@.len() == old(self).tables@.len(),
            final(self).progress() == with_live_rows(old(self).progress(), rows@),
            event::event_views(final(events)@) == event::event_views(old(events)@) + live_events(
                old(self).settings(),
                old(self).progress(),
                rows@,
                now,
            ),
            rows@.len() > 0 ==> (json::strings_in(
                json::strings_text(text::texts(rows@.last().0@)),
            ) matches Ok(read) && read == text::texts(rows@.last().0@)),
    {
        let place = self.current_table;
        let ghost p = place as int;
        let ghost state = self.progress();
        let ghost settings = self.settings();
        let ghost all = rows@;
        let ghost whole = live_events(settings, state, all, now);
        let ghost lead = event::event_views(events@);
        let count = rows.len();
        if count == 0 {
            self.leave_table();
            proof {
                assert(lead + whole =~= lead);
            }
            return;
        }
        let mut last = String::new();
        proof {
            assert(lead + whole.take(0) =~= lead);
            assert(state.tables[p] == self.tables@[p]@);
        }
        for row in iter: rows
            invariant
                iter.seq() == all,
                place < self.tables@.len(),
                p == place,
                self.progress() == state,
                self.settings() == settings,
                state.current == place,
                state.tables[p] == self.tables@[p]@,
                whole == live_events(settings, state, all, now),
                event::event_views(events@) == lead + whole.take(iter.index() as int),
                iter.index() > 0 ==> last@ == json::strings_text(
                    text::texts(all[iter.index() - 1].0@),
                ) && (json::strings_in(last@) matches Ok(read) && read == text::texts(
                    all[iter.index() - 1].0@,
                )),
        {
            let ghost n = iter.index() as int;
            let ghost before = event::event_views(events@);
            let (key, value) = row;
            let cursor = json::render_strings(&key).unwrap();
            let offset = text::join3(
                self.tables[place].snapshot.table.as_str(),
                ":",
                cursor.as_str(),
            );
            let one = self.build_row(place, offset, value, now);
            let ghost seen = one@;
            last = cursor;
            events.push(one);
            proof {
                assert(whole[n] == seen);
                assert(event::event_views(events@) =~= before.push(seen));
                assert(lead + whole.take(n + 1) =~= (lead + whole.take(n)).push(seen));
            }
        }
        proof {
            assert(whole.take(all.len() as int) =~= whole);
        }
        let one = &mut self.tables[place];
        one.snapshot.rows_processed = one.snapshot.rows_processed.saturating_add(count as u64);
        one.snapshot.cursor_position = Some(last);
        self.emitted_rows = self.emitted_rows.saturating_add(count as u64);
        self.emitted_in_run = self.emitted_in_run.saturating_add(count as u64);
        proof {
            assert(self.progress().tables =~= with_live_rows(state, all).tables);
        }
    }

    /// Brings the durable record up to date with the tables.
    pub(crate) fn sync_snapshot_tables(&mut self)
        ensures
            snapshot_views(final(self).snapshot.tables@) == table_views(old(self).tables@).map_values(
                |table: TableView| table.snapshot,
            ),
            final(self).progress() == old(self).progress(),
            final(self).tables == old(self).tables,
            final(self).settings() == old(self).settings(),
            final(self).snapshot.snapshot_start_ts == old(self).snapshot.snapshot_start_ts,
            final(self).snapshot.snapshot_end_ts == old(self).snapshot.snapshot_end_ts,
            final(self).transaction_open == old(self).transaction_open,
            final(self).current_table == old(self).current_table,
            final(self).emitted_rows == old(self).emitted_rows,
            final(self).emitted_in_run == old(self).emitted_in_run,
            final(self).next_chunk_index == old(self).next_chunk_index,
    {
        let ghost whole = table_views(self.tables@).map_values(|table: TableView| table.snapshot);
        let mut list: Vec<TableSnapshot> = Vec::new();
        let mut i: usize = 0;
        while i < self.tables.len()
            invariant
                i <= self.tables@.len(),
                whole == table_views(self.tables@).map_values(|table: TableView| table.snapshot),
                snapshot_views(list@) == whole.take(i as int),
            decreases self.tables.len() - i,
        {
            let ghost before = snapshot_views(list@);
            let one = self.tables[i].snapshot.clone();
            let ghost seen = one@;
            list.push(one);
            proof {
                assert(table_views(self.tables@)[i as int] == self.tables@[i as int]@);
                assert(snapshot_views(list@) =~= before.push(seen));
                assert(whole.take(i + 1) =~= whole.take(i as int).push(seen));
            }
            i = i + 1;
        }
        proof {
            assert(whole.take(i as int) =~= whole);
        }
        self.snapshot.tables = list;
    }

    /// Closes a chunk: marks and notes the end of the snapshot, counts the chunk, and brings the
    /// durable record up to date.
    pub fn finish_chunk(&mut self, events: &mut Vec<Event>, now: u64)
        requires
            old(self).wf(),
        ensures
            final(self).wf(),
            event::event_views(final(events)@) == closed(
                event::event_views(old(events)@),
                all_complete(old(self).progress().tables),
            ),
            final(events)@.len() == old(events)@.len(),
            final(self).tables == old(self).tables,
            final(self).settings() == old(self).settings(),
            final(self).transaction_open == old(self).transaction_open,
            final(self).current_table == old(self).current_table,
            final(self).emitted_rows == old(self).emitted_rows,
            final(self).emitted_in_run == old(self).emitted_in_run,
            final(self).next_chunk_index == (if old(events)@.len() == 0 || old(
                self,
            ).next_chunk_index == u32::MAX {
                old(self).next_chunk_index
            } else {
                (old(self).next_chunk_index + 1) as u32
            }),
            final(self).recorded(*old(self), now),
    {
        let count = events.len();
        if count > 0 {
            if self.is_complete() {
                let ghost before = events@;
                let one = &mut events[count - 1];
                match &mut one.snapshot {
                    Some(tag) => {
                        tag.is_last_chunk = true;
                    },
                    None => {},
                }
                proof {
                    assert(event::event_views(events@) =~= closed(
                        event::event_views(before),
                        true,
                    ));
                }
            }
            self.next_chunk_index = self.next_chunk_index.saturating_add(1);
        }
        self.sync_snapshot_tables();
        if self.is_complete() {
            self.snapshot.snapshot_end_ts = now;
        }
    }
}

/// A chunk under way.
pub struct ChunkTurn {
    /// How many events it holds at most.
    pub requested: usize,
    pub events: Vec<Event>,
}

/// What a chunk is told.
pub enum ChunkEvent {
    /// The start, with the size asked for; zero leaves it open.
    Begin { chunk_size: usize },
    /// The live rows that it asked for, each with its key values.
    Rows(Vec<(Vec<String>, serde_json::Value)>),
}

/// What a chunk asks for.
pub enum ChunkAction {
    /// At most `limit` live rows of a table, past its cursor.
    Fetch { table_index: usize, cursor: Option<String>, limit: usize },
    /// Return these events.
    Return(Vec<Event>),
}

/// What a [`ChunkAction`] asks for.
pub enum ChunkActionView {
    Fetch { table_index: int, cursor: Option<Seq<char>>, limit: int },
    Return(Seq<EventView>),
}

impl View for ChunkAction {
    type V = ChunkActionView;

    open spec fn view(&self) -> ChunkActionView {
        match self {
            ChunkAction::Fetch { table_index, cursor, limit } => ChunkActionView::Fetch {
                table_index: *table_index as int,
                cursor: text::text_option(*cursor),
                limit: *limit as int,
            },
            ChunkAction::Return(events) => ChunkActionView::Return(event::event_views(events@)),
        }
    }
}

/// The state with a chunk counted, where it holds anything.
pub open spec fn chunk_counted(state: SnapView, events: Seq<EventView>) -> SnapView {
    SnapView {
        chunk_index: if events.len() == 0 || state.chunk_index == u32::MAX {
            state.chunk_index
        } else {
            (state.chunk_index + 1) as u32
        },
        ..state
    }
}

/// The state after going on with a chunk, the events it holds then, and what it asks for.
pub open spec fn gone_on(
    settings: SnapSettings,
    state: SnapView,
    events: Seq<EventView>,
    requested: usize,
    now: u64,
) -> (SnapView, Seq<EventView>, ChunkActionView) {
    let (next, all, step) = filled(settings, state, events, requested, now);
    match step {
        StepView::Fetch { table_index, cursor, limit } => (
            next,
            all,
            ChunkActionView::Fetch { table_index, cursor, limit },
        ),
        StepView::Done => (
            chunk_counted(next, all),
            Seq::empty(),
            ChunkActionView::Return(closed(all, all_complete(next.tables))),
        ),
    }
}

impl ChunkTurn {
    /// A chunk to be started.
    pub fn new() -> (turn: Self)
        ensures
            turn.requested == 0,
            turn.events@.len() == 0,
    {
        ChunkTurn { requested: 0, events: Vec::new() }
    }
}

impl PostgresSnapshotHandle {
    fn go_on(&mut self, turn: &mut ChunkTurn, now: u64) -> (action: ChunkAction)
        requires
            old(self).wf(),
            old(turn).events@.len() <= old(turn).requested,
        ensures
            final(self).wf(),
            final(self).settings() == old(self).settings(),
            final(self).transaction_open == old(self).transaction_open,
            final(self).tables@.len() == old(self).tables@.len(),
            final(turn).requested == old(turn).requested,
            (final(self).progress(), event::event_views(final(turn).events@), action@) == gone_on(
                old(self).settings(),
                old(self).progress(),
                event::event_views(old(turn).events@),
                old(turn).requested,
                now,
            ),
            action matches ChunkAction::Fetch { table_index, limit, .. } ==> {
                &&& table_index == final(self).current_table
                &&& table_index < final(self).tables@.len()
                &&& final(turn).events@.len() + limit == final(turn).requested
            },
            action matches ChunkAction::Return(events) ==> events@.len() <= old(turn).requested,
            match action {
                ChunkAction::Fetch { .. } => final(self).snapshot == old(self).snapshot,
                ChunkAction::Return(_) => final(self).recorded(*old(self), now),
            },
    {
        match self.fill(&mut turn.events, turn.requested, now) {
            SnapshotStep::Fetch { table_index, cursor, limit } => ChunkAction::Fetch {
                table_index,
                cursor,
                limit,
            },
            SnapshotStep::Done => {
                let mut events: Vec<Event> = Vec::new();
                events.append(&mut turn.events);
                let ghost state = self.progress();
                let ghost all = event::event_views(events@);
                self.finish_chunk(&mut events, now);
                proof {
                    assert(event::event_views(turn.events@) =~= Seq::empty());
                    assert(all.len() == events@.len());
                    assert(self.progress().tables =~= state.tables);
                }
                ChunkAction::Return(events)
            },
        }
    }

    /// Goes on with a chunk: takes in what it is told, and says what it asks for. A complete
    /// snapshot has no chunk left; every other chunk ends in the events that it returns, never
    /// more than were asked for.
    pub fn next_chunk(&mut self, turn: &mut ChunkTurn, told: ChunkEvent, now: u64) -> (action:
        ChunkAction)
        requires
            old(self).wf(),
            told matches ChunkEvent::Rows(rows) ==> old(self).current_table < old(
                self,
            ).tables@.len() && old(turn).events@.len() + rows@.len() <= old(turn).requested,
        ensures
            final(self).wf(),
            final(self).settings() == old(self).settings(),
            final(self).transaction_open == old(self).transaction_open,
            final(self).tables@.len() == old(self).tables@.len(),
            match told {
                ChunkEvent::Begin { chunk_size } => if all_complete(
                    old(self).progress().tables,
                ) {
                    action@ == ChunkActionView::Return(Seq::empty()) && final(self).progress()
                        == old(self).progress()
                } else {
                    &&& final(turn).requested == (if chunk_size == 0 {
                        DEFAULT_SNAPSHOT_CHUNK_SIZE
                    } else {
                        chunk_size
                    })
                    &&& (final(self).progress(), event::event_views(final(turn).events@), action@)
                        == gone_on(
                        old(self).settings(),
                        old(self).progress(),
                        Seq::empty(),
                        final(turn).requested,
                        now,
                    )
                },
                ChunkEvent::Rows(rows) => {
                    &&& final(turn).requested == old(turn).requested
                    &&& (final(self).progress(), event::event_views(final(turn).events@), action@)
                        == gone_on(
                        old(self).settings(),
                        with_live_rows(old(self).progress(), rows@),
                        event::event_views(old(turn).events@) + live_events(
                            old(self).settings(),
                            old(self).progress(),
                            rows@,
                            now,
                        ),
                        old(turn).requested,
                        now,
                    )
                },
            },
            action matches ChunkAction::Fetch { table_index, limit, .. } ==> {
                &&& table_index == final(self).current_table
                &&& table_index < final(self).tables@.len()
                &&& final(turn).events@.len() + limit == final(turn).requested
            },
            action matches ChunkAction::Return(events) ==> events@.len() <= final(turn).requested
                || events@.len() == 0,
            match (told, action) {
                (ChunkEvent::Begin { .. }, ChunkAction::Return(_)) => if all_complete(
                    old(self).progress().tables,
                ) {
                    final(self).snapshot == (PostgresSnapshot {
                        snapshot_end_ts: if old(self).snapshot.snapshot_end_ts == 0 {
                            now
                        } else {
                            old(self).snapshot.snapshot_end_ts
                        },
                        ..old(self).snapshot
                    })
                } else {
                    final(self).recorded(*old(self), now)
                },
                (_, ChunkAction::Fetch { .. }) => final(self).snapshot == old(self).snapshot,
                (_, ChunkAction::Return(_)) => final(self).recorded(*old(self), now),
            },
    {
        match told {
            ChunkEvent::Begin { chunk_size } => match self.begin_chunk(chunk_size, now) {
                None => {
                    let none: Vec<Event> = Vec::new();
                    proof {
                        assert(event::event_views(none@) =~= Seq::empty());
                    }
                    ChunkAction::Return(none)
                },
                Some(requested) => {
                    turn.requested = requested;
                    turn.events = Vec::new();
                    proof {
                        assert(event::event_views(turn.events@) =~= Seq::empty());
                    }
                    self.go_on(turn, now)
                },
            },
            ChunkEvent::Rows(rows) => {
                self.take_live_rows(&mut turn.events, rows, now);
                proof {
                    assert(event::event_views(turn.events@).len() == turn.events@.len());
                }
                self.go_on(turn, now)
            },
        }
    }
}

} // verus!
