//! The binlog stream: from decoded binlog messages to committed change events.
use std::collections::VecDeque;
use vstd::prelude::*;
use crate::error::Error;
use crate::event;
use crate::event::{
    BeforeImage, BeforeView, Event, EventView, Operation, SourceMetadata, SourceView,
    TransactionMetadata, EVENT_ENVELOPE_VERSION,
};
use crate::filter;
use crate::json;
use crate::json::Json;
use crate::mysql::gtid;
use crate::mysql::parser;
use crate::mysql::parser::MysqlOffset;
use crate::schema;
use crate::schema::{CapturedDdl, CatalogColumn, DdlView, TableMap};
use crate::text;

verus! {

/// A row change out of a rows event.
#[derive(Debug, PartialEq)]
pub struct MysqlRowChange {
    pub schema: Option<String>,
    pub table: String,
    pub primary_key: Option<Vec<String>>,
    pub before: Option<serde_json::Value>,
    pub after: Option<serde_json::Value>,
}

/// What a [`MysqlRowChange`] holds.
pub struct ChangeView {
    pub schema: Option<Seq<char>>,
    pub table: Seq<char>,
    pub primary_key: Option<Seq<Seq<char>>>,
    pub before: Option<Json>,
    pub after: Option<Json>,
}

impl View for MysqlRowChange {
    type V = ChangeView;

    open spec fn view(&self) -> ChangeView {
        ChangeView {
            schema: text::text_option(self.schema),
            table: self.table@,
            primary_key: event::key_names(self.primary_key),
            before: json::json_option(self.before),
            after: json::json_option(self.after),
        }
    }
}

/// A decoded binlog event.
#[allow(inconsistent_fields)]
#[derive(Debug, PartialEq)]
pub enum MysqlBinlogMessage {
    Begin { tx_id: u64, timestamp_ms: u64 },
    WriteRows(MysqlRowChange),
    UpdateRows(MysqlRowChange),
    DeleteRows(MysqlRowChange),
    Xid {
        tx_id: u64,
        timestamp_ms: u64,
        binlog_file: String,
        binlog_pos: u32,
        gtid: Option<String>,
    },
    Rotate { binlog_file: String, binlog_pos: u32 },
    Gtid { gtid: String },
    Ddl { captured: CapturedDdl, timestamp_ms: u64, binlog_file: String, binlog_pos: u32 },
    Truncate {
        schema: Option<String>,
        table: String,
        timestamp_ms: u64,
        binlog_file: String,
        binlog_pos: u32,
    },
    Heartbeat,
}

/// What is told of a poll while the stream is not running.
pub const NOT_RUNNING: &'static str = "mysql stream polling requested while stream is not running";

/// What a [`MysqlBinlogMessage`] holds.
#[allow(inconsistent_fields)]
pub enum MessageView {
    Begin { tx_id: u64, timestamp_ms: u64 },
    Rows { op: Operation, change: ChangeView },
    Xid {
        tx_id: u64,
        timestamp_ms: u64,
        binlog_file: Seq<char>,
        binlog_pos: u32,
        gtid: Option<Seq<char>>,
    },
    Rotate { binlog_file: Seq<char>, binlog_pos: u32 },
    Gtid { gtid: Seq<char> },
    Ddl { captured: DdlView, timestamp_ms: u64, binlog_file: Seq<char>, binlog_pos: u32 },
    Truncate {
        schema: Option<Seq<char>>,
        table: Seq<char>,
        timestamp_ms: u64,
        binlog_file: Seq<char>,
        binlog_pos: u32,
    },
    Heartbeat,
}

impl View for MysqlBinlogMessage {
    type V = MessageView;

    open spec fn view(&self) -> MessageView {
        match self {
            MysqlBinlogMessage::Begin { tx_id, timestamp_ms } => MessageView::Begin {
                tx_id: *tx_id,
                timestamp_ms: *timestamp_ms,
            },
            MysqlBinlogMessage::WriteRows(change) => MessageView::Rows {
                op: Operation::Insert,
                change: change@,
            },
            MysqlBinlogMessage::UpdateRows(change) => MessageView::Rows {
                op: Operation::Update,
                change: change@,
            },
            MysqlBinlogMessage::DeleteRows(change) => MessageView::Rows {
                op: Operation::Delete,
                change: change@,
            },
            MysqlBinlogMessage::Xid { tx_id, timestamp_ms, binlog_file, binlog_pos, gtid } => {
                MessageView::Xid {
                    tx_id: *tx_id,
                    timestamp_ms: *timestamp_ms,
                    binlog_file: binlog_file@,
                    binlog_pos: *binlog_pos,
                    gtid: text::text_option(*gtid),
                }
            },
            MysqlBinlogMessage::Rotate { binlog_file, binlog_pos } => MessageView::Rotate {
                binlog_file: binlog_file@,
                binlog_pos: *binlog_pos,
            },
            MysqlBinlogMessage::Gtid { gtid } => MessageView::Gtid { gtid: gtid@ },
            MysqlBinlogMessage::Ddl { captured, timestamp_ms, binlog_file, binlog_pos } => {
                MessageView::Ddl {
                    captured: captured@,
                    timestamp_ms: *timestamp_ms,
                    binlog_file: binlog_file@,
                    binlog_pos: *binlog_pos,
                }
            },
            MysqlBinlogMessage::Truncate { schema, table, timestamp_ms, binlog_file, binlog_pos } => {
                MessageView::Truncate {
                    schema: text::text_option(*schema),
                    table: table@,
                    timestamp_ms: *timestamp_ms,
                    binlog_file: binlog_file@,
                    binlog_pos: *binlog_pos,
                }
            },
            MysqlBinlogMessage::Heartbeat => MessageView::Heartbeat,
        }
    }
}

/// What each of some messages holds.
pub open spec fn message_views(messages: Seq<MysqlBinlogMessage>) -> Seq<MessageView> {
    messages.map_values(|message: MysqlBinlogMessage| message@)
}

/// Whether a stream is running.
#[derive(Clone, Copy, Debug, PartialEq, Eq, Structural)]
pub enum StreamState {
    Starting,
    Streaming,
    Stopped,
}

/// Where the stream stands in the log.
#[derive(Debug, PartialEq, Eq)]
pub struct MysqlStream {
    pub binlog_file: String,
    pub binlog_pos: u32,
    /// The executed set.
    pub gtid: String,
    pub stream_state: StreamState,
}

/// A live binlog stream.
pub struct MysqlStreamHandle {
    pub source_name: String,
    pub stream: MysqlStream,
    /// The transaction that is open.
    pub current_tx_id: Option<u64>,
    pub current_commit_ts: u64,
    /// The events of the open transaction.
    pub partial_tx_events: Vec<Event>,
    /// Events handed back, to be delivered first.
    pub requeued_events: VecDeque<Event>,
    pub events_polled: u64,
    pub max_events_per_poll: usize,
    pub stream_poll_interval_ms: u64,
    pub table_include_list: Vec<String>,
    pub table_exclude_list: Vec<String>,
    /// Declared columns by table, read from the catalog when the stream started.
    pub catalog_columns: TableMap<Vec<CatalogColumn>>,
    /// Primary keys by table, from the same read.
    pub catalog_primary_keys: TableMap<Vec<String>>,
    /// Tables whose shape this run has announced.
    pub announced_tables: Vec<(String, String)>,
}

/// What changes while a stream is processed.
pub struct StreamView {
    pub file: Seq<char>,
    pub position: u32,
    pub gtid: Seq<char>,
    pub tx: Option<u64>,
    pub commit_ts: u64,
    pub partial: Seq<EventView>,
    pub announced: Seq<(Seq<char>, Seq<char>)>,
    pub polled: u64,
}

/// What stays the same while a stream is processed.
pub struct StreamSettings {
    pub source_name: Seq<char>,
    pub include_list: Seq<Seq<char>>,
    pub exclude_list: Seq<Seq<char>>,
    pub columns: TableMap<Vec<CatalogColumn>>,
    pub keys: TableMap<Vec<String>>,
}

/// The names of announced tables.
pub open spec fn announced_views(tables: Seq<(String, String)>) -> Seq<(Seq<char>, Seq<char>)> {
    tables.map_values(|table: (String, String)| (table.0@, table.1@))
}

impl MysqlStreamHandle {
    /// What changes while the stream is processed.
    pub open spec fn progress(self) -> StreamView {
        StreamView {
            file: self.stream.binlog_file@,
            position: self.stream.binlog_pos,
            gtid: self.stream.gtid@,
            tx: self.current_tx_id,
            commit_ts: self.current_commit_ts,
            partial: event::event_views(self.partial_tx_events@),
            announced: announced_views(self.announced_tables@),
            polled: self.events_polled,
        }
    }

    /// What stays the same while the stream is processed.
    pub open spec fn settings(self) -> StreamSettings {
        StreamSettings {
            source_name: self.source_name@,
            include_list: text::texts(self.table_include_list@),
            exclude_list: text::texts(self.table_exclude_list@),
            columns: self.catalog_columns,
            keys: self.catalog_primary_keys,
        }
    }

    /// The same apart from what [`MysqlStreamHandle::progress`] says.
    pub open spec fn same_otherwise(self, other: Self) -> bool {
        &&& self.settings() == other.settings()
        &&& self.stream.stream_state == other.stream.stream_state
        &&& self.requeued_events == other.requeued_events
        &&& self.max_events_per_poll == other.max_events_per_poll
        &&& self.stream_poll_interval_ms == other.stream_poll_interval_ms
    }
}

/// The transaction tag of the next event of the open transaction.
pub open spec fn next_tag(tx: Option<u64>, index: nat) -> Option<TransactionMetadata> {
    match tx {
        Some(tx_id) => Some(
            TransactionMetadata { tx_id, total_events: None, event_index: index as u32 },
        ),
        None => None,
    }
}

/// The event of a row change in the open transaction. Its offset is provisional: the commit
/// stamps the transaction's end on it.
pub open spec fn row_event(
    settings: StreamSettings,
    state: StreamView,
    op: Operation,
    change: ChangeView,
) -> EventView {
    EventView {
        before: match change.before {
            Some(row) => BeforeView::Full { row, unavailable_columns: Seq::empty() },
            None => BeforeView::Unavailable,
        },
        after: change.after,
        op,
        source: SourceView {
            source_name: settings.source_name,
            offset: state.file + ":"@ + text::decimal_text(state.position as nat),
            timestamp: state.commit_ts,
        },
        ts: state.commit_ts,
        schema: change.schema,
        table: change.table,
        primary_key: change.primary_key,
        snapshot: None,
        transaction: next_tag(state.tx, state.partial.len()),
        envelope_version: EVENT_ENVELOPE_VERSION,
        schema_id: None,
        unavailable_columns: Seq::empty(),
    }
}

/// An event of a transaction as its commit delivers it: with the transaction's size, its own
/// place in it, the commit's time and the place in the log to resume from.
pub open spec fn stamped(
    one: EventView,
    index: int,
    total: u32,
    timestamp_ms: u64,
    offset: Seq<char>,
) -> EventView {
    EventView {
        transaction: match one.transaction {
            Some(tx) => Some(
                TransactionMetadata {
                    tx_id: tx.tx_id,
                    total_events: Some(total),
                    event_index: index as u32,
                },
            ),
            None => None,
        },
        ts: timestamp_ms,
        source: SourceView {
            source_name: one.source.source_name,
            offset,
            timestamp: timestamp_ms,
        },
        ..one
    }
}

/// The events of a transaction as its commit delivers them.
pub open spec fn stamped_all(
    partial: Seq<EventView>,
    timestamp_ms: u64,
    offset: Seq<char>,
) -> Seq<EventView> {
    partial.map(
        |i: int, one: EventView| stamped(one, i, partial.len() as u32, timestamp_ms, offset),
    )
}

/// The executed set after a commit. A commit's GTID is taken into the set, never put in its
/// place.
pub open spec fn set_after(current: Seq<char>, gtid: Option<Seq<char>>) -> Seq<char> {
    match gtid {
        Some(one) => gtid::merged(current, one),
        None => current,
    }
}

/// A sum of counts, at most the largest count.
pub open spec fn counted(polled: u64, more: int) -> u64 {
    if polled + more > u64::MAX {
        u64::MAX
    } else {
        (polled + more) as u64
    }
}

/// The state after the open transaction commits.
pub open spec fn after_commit(
    state: StreamView,
    file: Seq<char>,
    position: u32,
    gtid: Option<Seq<char>>,
) -> StreamView {
    StreamView {
        file,
        position,
        gtid: set_after(state.gtid, gtid),
        tx: None,
        commit_ts: 0,
        partial: Seq::empty(),
        announced: state.announced,
        polled: counted(state.polled, state.partial.len() as u32 as int),
    }
}

/// The events that a commit delivers.
pub open spec fn commit_events(
    state: StreamView,
    timestamp_ms: u64,
    file: Seq<char>,
    position: u32,
    gtid: Option<Seq<char>>,
) -> Seq<EventView> {
    stamped_all(
        state.partial,
        timestamp_ms,
        parser::source_offset(file, position, set_after(state.gtid, gtid)),
    )
}

/// The announcement of a table's shape, where this run has not announced it yet and the catalog
/// read at the start covers the table. A later table's own statement is in the log.
pub open spec fn announcement(
    settings: StreamSettings,
    state: StreamView,
    schema: Option<Seq<char>>,
    table: Seq<char>,
    now: u64,
) -> Option<EventView> {
    match schema {
        Some(database) => if state.announced.contains((database, table)) {
            None
        } else {
            match settings.columns.found(database, table) {
                Some(columns) => {
                    let keys = match settings.keys.found(database, table) {
                        Some(keys) => text::texts(keys@),
                        None => Seq::empty(),
                    };
                    let ts = if state.commit_ts == 0 {
                        now
                    } else {
                        state.commit_ts
                    };
                    let ddl = DdlView {
                        ddl_type: schema::DDL_TYPE_READ_SCHEMA@,
                        schema: database,
                        table,
                        statement: schema::observation(database, table, "information_schema"@),
                        result_schema: Some(
                            schema::catalog_shape(
                                database,
                                table,
                                schema::catalog_views(columns@),
                                keys,
                            ),
                        ),
                        ts,
                    };
                    let offset = parser::source_offset(state.file, state.position, state.gtid);
                    Some(
                        EventView {
                            transaction: next_tag(state.tx, state.partial.len()),
                            ..schema::ddl_event(ddl, settings.source_name, offset, ts)
                        },
                    )
                },
                None => None,
            }
        },
        None => None,
    }
}

/// The state once a table's shape is announced ahead of a row, where it is due.
pub open spec fn after_announcement(
    settings: StreamSettings,
    state: StreamView,
    schema: Option<Seq<char>>,
    table: Seq<char>,
    now: u64,
) -> StreamView {
    match announcement(settings, state, schema, table, now) {
        Some(one) => StreamView {
            partial: state.partial.push(one),
            announced: state.announced.push((schema->0, table)),
            ..state
        },
        None => state,
    }
}

/// The state once a statement has ended the open transaction, and the events that this delivers.
pub open spec fn implicit_commit(
    state: StreamView,
    timestamp_ms: u64,
    file: Seq<char>,
    position: u32,
) -> (StreamView, Seq<EventView>) {
    if state.partial.len() > 0 {
        if state.tx is Some {
            (
                after_commit(state, file, position, None),
                commit_events(state, timestamp_ms, file, position, None),
            )
        } else {
            (StreamView { partial: Seq::empty(), ..state }, Seq::empty())
        }
    } else {
        (state, Seq::empty())
    }
}

/// The event of a truncated table.
pub open spec fn truncate_event(
    settings: StreamSettings,
    schema: Option<Seq<char>>,
    table: Seq<char>,
    timestamp_ms: u64,
    offset: Seq<char>,
) -> EventView {
    EventView {
        before: BeforeView::Unavailable,
        after: None,
        op: Operation::Truncate,
        source: SourceView {
            source_name: settings.source_name,
            offset,
            timestamp: timestamp_ms,
        },
        ts: timestamp_ms,
        schema,
        table,
        primary_key: None,
        snapshot: None,
        transaction: None,
        envelope_version: EVENT_ENVELOPE_VERSION,
        schema_id: None,
        unavailable_columns: Seq::empty(),
    }
}

/// The state after a message, and the events that the message delivers.
///
/// Rows wait for their transaction's commit. A row is preceded by its table's announcement. A
/// statement ends the open transaction; whether its own event is delivered is up to the lists,
/// but the position moves on either way.
pub open spec fn step(
    settings: StreamSettings,
    state: StreamView,
    message: MessageView,
    now: u64,
) -> (StreamView, Seq<EventView>) {
    match message {
        MessageView::Begin { tx_id, timestamp_ms } => (
            StreamView {
                tx: Some(tx_id),
                commit_ts: timestamp_ms,
                partial: Seq::empty(),
                ..state
            },
            Seq::empty(),
        ),
        MessageView::Rows { op, change } => if filter::allowed(
            change.schema,
            change.table,
            settings.include_list,
            settings.exclude_list,
        ) {
            let next = after_announcement(settings, state, change.schema, change.table, now);
            (
                StreamView {
                    partial: next.partial.push(row_event(settings, next, op, change)),
                    ..next
                },
                Seq::empty(),
            )
        } else {
            (state, Seq::empty())
        },
        MessageView::Xid { tx_id, timestamp_ms, binlog_file, binlog_pos, gtid } => (
            after_commit(state, binlog_file, binlog_pos, gtid),
            commit_events(state, timestamp_ms, binlog_file, binlog_pos, gtid),
        ),
        MessageView::Rotate { binlog_file, binlog_pos } => (
            StreamView { file: binlog_file, position: binlog_pos, ..state },
            Seq::empty(),
        ),
        MessageView::Gtid { gtid } => (
            StreamView { gtid: gtid::merged(state.gtid, gtid), ..state },
            Seq::empty(),
        ),
        MessageView::Ddl { captured, timestamp_ms, binlog_file, binlog_pos } => {
            let ended = implicit_commit(state, timestamp_ms, binlog_file, binlog_pos);
            let moved = StreamView { file: binlog_file, position: binlog_pos, ..ended.0 };
            if filter::allowed(
                Some(captured.schema),
                captured.table,
                settings.include_list,
                settings.exclude_list,
            ) {
                let offset = parser::source_offset(binlog_file, binlog_pos, moved.gtid);
                (
                    StreamView { polled: counted(moved.polled, 1), ..moved },
                    ended.1.push(
                        schema::ddl_event(captured, settings.source_name, offset, timestamp_ms),
                    ),
                )
            } else {
                (moved, ended.1)
            }
        },
        MessageView::Truncate { schema, table, timestamp_ms, binlog_file, binlog_pos } => {
            let ended = implicit_commit(state, timestamp_ms, binlog_file, binlog_pos);
            let moved = StreamView { file: binlog_file, position: binlog_pos, ..ended.0 };
            if filter::allowed(schema, table, settings.include_list, settings.exclude_list) {
                let offset = parser::source_offset(binlog_file, binlog_pos, moved.gtid);
                (
                    StreamView { polled: counted(moved.polled, 1), ..moved },
                    ended.1.push(truncate_event(settings, schema, table, timestamp_ms, offset)),
                )
            } else {
                (moved, ended.1)
            }
        },
        MessageView::Heartbeat => (state, Seq::empty()),
    }
}

/// The state after messages in order, and the events that they deliver.
pub open spec fn run(
    settings: StreamSettings,
    state: StreamView,
    messages: Seq<MessageView>,
    now: u64,
) -> (StreamView, Seq<EventView>)
    decreases messages.len(),
{
    if messages.len() == 0 {
        (state, Seq::empty())
    } else {
        let before = run(settings, state, messages.drop_last(), now);
        let last = step(settings, before.0, messages.last(), now);
        (last.0, before.1 + last.1)
    }
}

impl MysqlStreamHandle {
    /// A stream at a place in the log, with nothing read yet.
    pub fn new(
        source_name: String,
        stream: MysqlStream,
        max_events_per_poll: usize,
        stream_poll_interval_ms: u64,
        table_include_list: Vec<String>,
        table_exclude_list: Vec<String>,
        catalog_columns: TableMap<Vec<CatalogColumn>>,
        catalog_primary_keys: TableMap<Vec<String>>,
    ) -> (handle: Self)
        ensures
            handle.stream == stream,
            handle.settings() == (StreamSettings {
                source_name: source_name@,
                include_list: text::texts(table_include_list@),
                exclude_list: text::texts(table_exclude_list@),
                columns: catalog_columns,
                keys: catalog_primary_keys,
            }),
            handle.progress() == (StreamView {
                file: stream.binlog_file@,
                position: stream.binlog_pos,
                gtid: stream.gtid@,
                tx: None,
                commit_ts: 0,
                partial: Seq::empty(),
                announced: Seq::empty(),
                polled: 0,
            }),
            handle.requeued_events@.len() == 0,
            handle.max_events_per_poll == (if max_events_per_poll == 0 {
                1
            } else {
                max_events_per_poll
            }),
            handle.stream_poll_interval_ms == (if stream_poll_interval_ms == 0 {
                1
            } else {
                stream_poll_interval_ms
            }),
    {
        let handle = MysqlStreamHandle {
            source_name,
            stream,
            current_tx_id: None,
            current_commit_ts: 0,
            partial_tx_events: Vec::new(),
            requeued_events: VecDeque::new(),
            events_polled: 0,
            max_events_per_poll: if max_events_per_poll == 0 {
                1
            } else {
                max_events_per_poll
            },
            stream_poll_interval_ms: if stream_poll_interval_ms == 0 {
                1
            } else {
                stream_poll_interval_ms
            },
            table_include_list,
            table_exclude_list,
            catalog_columns,
            catalog_primary_keys,
            announced_tables: Vec::new(),
        };
        proof {
            assert(handle.progress().partial =~= Seq::<EventView>::empty());
            assert(handle.progress().announced =~= Seq::<(Seq<char>, Seq<char>)>::empty());
        }
        handle
    }

    fn tx_meta(&self) -> (tag: Option<TransactionMetadata>)
        ensures
            tag == next_tag(self.current_tx_id, self.partial_tx_events@.len()),
    {
        match self.current_tx_id {
            Some(tx_id) => Some(
                TransactionMetadata {
                    tx_id,
                    total_events: None,
                    event_index: self.partial_tx_events.len() as u32,
                },
            ),
            None => None,
        }
    }

    fn source_meta(&self) -> (source: SourceMetadata)
        ensures
            source@ == (SourceView {
                source_name: self.source_name@,
                offset: self.stream.binlog_file@ + ":"@ + text::decimal_text(
                    self.stream.binlog_pos as nat,
                ),
                timestamp: self.current_commit_ts,
            }),
    {
        SourceMetadata {
            source_name: self.source_name.clone(),
            offset: text::join3(
                self.stream.binlog_file.as_str(),
                ":",
                text::decimal(self.stream.binlog_pos as u64).as_str(),
            ),
            timestamp: self.current_commit_ts,
        }
    }

    fn source_meta_at(&self, binlog_file: &str, binlog_pos: u32, timestamp_ms: u64) -> (source:
        SourceMetadata)
        ensures
            source@ == (SourceView {
                source_name: self.source_name@,
                offset: parser::source_offset(binlog_file@, binlog_pos, self.stream.gtid@),
                timestamp: timestamp_ms,
            }),
    {
        SourceMetadata {
            source_name: self.source_name.clone(),
            offset: parser::format_mysql_source_offset(
                binlog_file,
                binlog_pos,
                self.stream.gtid.as_str(),
            ),
            timestamp: timestamp_ms,
        }
    }

    fn build_event(&self, op: Operation, change: MysqlRowChange) -> (event: Event)
        ensures
            event@ == row_event(self.settings(), self.progress(), op, change@),
    {
        let event = Event {
            before: match change.before {
                Some(row) => BeforeImage::full(row),
                None => BeforeImage::Unavailable,
            },
            after: change.after,
            op,
            source: self.source_meta(),
            ts: self.current_commit_ts,
            schema: change.schema,
            table: change.table,
            primary_key: change.primary_key,
            snapshot: None,
            transaction: self.tx_meta(),
            envelope_version: EVENT_ENVELOPE_VERSION,
            schema_id: None,
            unavailable_columns: Vec::new(),
        };
        proof {
            assert(event@.unavailable_columns =~= Seq::<Seq<char>>::empty());
        }
        event
    }

    /// Ends the open transaction: stamps its events and moves the stream to its end.
    fn commit_current_transaction(
        &mut self,
        timestamp_ms: u64,
        binlog_file: String,
        binlog_pos: u32,
        gtid: Option<String>,
    ) -> (events: Vec<Event>)
        ensures
            final(self).same_otherwise(*old(self)),
            final(self).progress() == after_commit(
                old(self).progress(),
                binlog_file@,
                binlog_pos,
                text::text_option(gtid),
            ),
            event::event_views(events@) == commit_events(
                old(self).progress(),
                timestamp_ms,
                binlog_file@,
                binlog_pos,
                text::text_option(gtid),
            ),
    {
        if let Some(one) = &gtid {
            self.stream.gtid =
            gtid::merge_gtid_into_set(self.stream.gtid.as_str(), one.as_str());
        }
        let offset = parser::format_mysql_source_offset(
            binlog_file.as_str(),
            binlog_pos,
            self.stream.gtid.as_str(),
        );
        let mut events: Vec<Event> = Vec::new();
        std::mem::swap(&mut events, &mut self.partial_tx_events);
        let total = events.len() as u32;
        let ghost partial = event::event_views(events@);
        let ghost whole = stamped_all(partial, timestamp_ms, offset@);
        let mut i: usize = 0;
        while i < events.len()
            invariant
                i <= events@.len(),
                events@.len() == partial.len(),
                total == events@.len() as u32,
                whole == stamped_all(partial, timestamp_ms, offset@),
                forall|k: int| 0 <= k < i ==> #[trigger] events@[k]@ == whole[k],
                forall|k: int| i <= k < events@.len() ==> #[trigger] events@[k]@ == partial[k],
            decreases events.len() - i,
        {
            let ghost before = events@;
            proof {
                assert(before[i as int]@ == partial[i as int]);
            }
            let one = &mut events[i];
            if let Some(tx) = one.transaction {
                one.transaction =
                Some(
                    TransactionMetadata {
                        tx_id: tx.tx_id,
                        total_events: Some(total),
                        event_index: i as u32,
                    },
                );
            }
            one.ts = timestamp_ms;
            one.source.timestamp = timestamp_ms;
            one.source.offset = offset.clone();
            proof {
                assert(events@[i as int]@ == stamped(
                    partial[i as int],
                    i as int,
                    total,
                    timestamp_ms,
                    offset@,
                ));
                assert forall|k: int| 0 <= k < events@.len() && k != i implies #[trigger] events@[k]
                    == before[k] by {}
            }
            i = i + 1;
        }
        proof {
            assert(event::event_views(events@) =~= whole);
        }
        self.stream.binlog_file = binlog_file;
        self.stream.binlog_pos = binlog_pos;
        self.events_polled = self.events_polled.saturating_add(total as u64);
        self.current_tx_id = None;
        self.current_commit_ts = 0;
        proof {
            assert(self.progress().partial =~= Seq::<EventView>::empty());
        }
        events
    }

    fn is_announced(&self, database: &str, table: &str) -> (yes: bool)
        ensures
            yes == self.progress().announced.contains((database@, table@)),
    {
        let ghost names = announced_views(self.announced_tables@);
        let mut i: usize = 0;
        while i < self.announced_tables.len()
            invariant
                i <= self.announced_tables@.len(),
                names == announced_views(self.announced_tables@),
                forall|k: int| 0 <= k < i ==> #[trigger] names[k] != (database@, table@),
            decreases self.announced_tables.len() - i,
        {
            let one = &self.announced_tables[i];
            proof {
                assert(names[i as int] == (one.0@, one.1@));
            }
            if text::same_text(one.0.as_str(), database) && text::same_text(
                one.1.as_str(),
                table,
            ) {
                return true;
            }
            i = i + 1;
        }
        false
    }

    /// Announces a table's shape the first time this run sees a row of it.
    fn announce_table_if_new(&mut self, schema: Option<&str>, table: &str, now: u64)
        ensures
            final(self).same_otherwise(*old(self)),
            final(self).progress() == after_announcement(
                old(self).settings(),
                old(self).progress(),
                match schema {
                    Some(schema) => Some(schema@),
                    None => None,
                },
                table@,
                now,
            ),
    {
        let ghost start = self.progress();
        let database = match schema {
            Some(database) => database,
            None => {
                return;
            },
        };
        if self.is_announced(database, table) {
            return;
        }
        let shape = match self.catalog_columns.get(database, table) {
            Some(columns) => {
                let none: Vec<String> = Vec::new();
                proof {
                    assert(text::texts(none@) =~= Seq::<Seq<char>>::empty());
                }
                let keys = match self.catalog_primary_keys.get(database, table) {
                    Some(keys) => keys,
                    None => &none,
                };
                schema::table_schema_from_catalog(database, table, columns, keys)
            },
            None => {
                return;
            },
        };
        let ts = if self.current_commit_ts == 0 {
            now
        } else {
            self.current_commit_ts
        };
        let captured = CapturedDdl {
            ddl_type: schema::DDL_TYPE_READ_SCHEMA.to_owned(),
            schema: database.to_owned(),
            table: table.to_owned(),
            statement: schema::observed_statement(database, table, "information_schema"),
            result_schema: Some(shape),
            ts,
        };
        let offset = parser::format_mysql_source_offset(
            self.stream.binlog_file.as_str(),
            self.stream.binlog_pos,
            self.stream.gtid.as_str(),
        );
        let mut announcement = captured.to_event(self.source_name.as_str(), offset, ts);
        announcement.transaction = self.tx_meta();
        let ghost seen = announcement@;
        self.announced_tables.push((database.to_owned(), table.to_owned()));
        self.partial_tx_events.push(announcement);
        proof {
            assert(self.progress().partial =~= start.partial.push(seen));
            assert(self.progress().announced =~= start.announced.push((database@, table@)));
        }
    }

    fn allows(&self, schema: &Option<String>, table: &str) -> (yes: bool)
        ensures
            yes == filter::allowed(
                text::text_option(*schema),
                table@,
                self.settings().include_list,
                self.settings().exclude_list,
            ),
    {
        let name = match schema {
            Some(schema) => Some(schema.as_str()),
            None => None,
        };
        filter::table_is_allowed(
            name,
            table,
            self.table_include_list.as_slice(),
            self.table_exclude_list.as_slice(),
        )
    }

    fn take_row(&mut self, op: Operation, change: MysqlRowChange, now: u64)
        ensures
            final(self).same_otherwise(*old(self)),
            final(self).progress() == step(
                old(self).settings(),
                old(self).progress(),
                MessageView::Rows { op, change: change@ },
                now,
            ).0,
    {
        if self.allows(&change.schema, change.table.as_str()) {
            match &change.schema {
                Some(schema) => {
                    self.announce_table_if_new(Some(schema.as_str()), change.table.as_str(), now);
                },
                None => {
                    self.announce_table_if_new(None, change.table.as_str(), now);
                },
            }
            let ghost middle = self.progress();
            let one = self.build_event(op, change);
            let ghost seen = one@;
            self.partial_tx_events.push(one);
            proof {
                assert(self.progress().partial =~= middle.partial.push(seen));
            }
        }
    }

    /// Ends the open transaction before a statement that commits it.
    fn end_for_statement(&mut self, timestamp_ms: u64, binlog_file: &String, binlog_pos: u32) -> (
        events: Vec<Event>)
        ensures
            final(self).same_otherwise(*old(self)),
            final(self).progress() == implicit_commit(
                old(self).progress(),
                timestamp_ms,
                binlog_file@,
                binlog_pos,
            ).0,
            event::event_views(events@) == implicit_commit(
                old(self).progress(),
                timestamp_ms,
                binlog_file@,
                binlog_pos,
            ).1,
    {
        let mut events: Vec<Event> = Vec::new();
        proof {
            assert(event::event_views(events@) =~= Seq::<EventView>::empty());
        }
        if self.partial_tx_events.len() > 0 {
            if self.current_tx_id.is_some() {
                events =
                self.commit_current_transaction(
                    timestamp_ms,
                    binlog_file.clone(),
                    binlog_pos,
                    None,
                );
            } else {
                self.partial_tx_events = Vec::new();
                proof {
                    assert(self.progress().partial =~= Seq::<EventView>::empty());
                }
            }
        }
        events
    }

    /// Processes one message; see [`step`].
    fn process_message(&mut self, message: MysqlBinlogMessage, now: u64) -> (events: Vec<Event>)
        ensures
            final(self).same_otherwise(*old(self)),
            (final(self).progress(), event::event_views(events@)) == step(
                old(self).settings(),
                old(self).progress(),
                message@,
                now,
            ),
    {
        let none: Vec<Event> = Vec::new();
        proof {
            assert(event::event_views(none@) =~= Seq::<EventView>::empty());
        }
        match message {
            MysqlBinlogMessage::Begin { tx_id, timestamp_ms } => {
                self.current_tx_id = Some(tx_id);
                self.current_commit_ts = timestamp_ms;
                self.partial_tx_events = Vec::new();
                proof {
                    assert(self.progress().partial =~= Seq::<EventView>::empty());
                }
                none
            },
            MysqlBinlogMessage::WriteRows(change) => {
                self.take_row(Operation::Insert, change, now);
                none
            },
            MysqlBinlogMessage::UpdateRows(change) => {
                self.take_row(Operation::Update, change, now);
                none
            },
            MysqlBinlogMessage::DeleteRows(change) => {
                self.take_row(Operation::Delete, change, now);
                none
            },
            MysqlBinlogMessage::Xid { tx_id: _, timestamp_ms, binlog_file, binlog_pos, gtid } => {
                self.commit_current_transaction(timestamp_ms, binlog_file, binlog_pos, gtid)
            },
            MysqlBinlogMessage::Rotate { binlog_file, binlog_pos } => {
                self.stream.binlog_file = binlog_file;
                self.stream.binlog_pos = binlog_pos;
                none
            },
            MysqlBinlogMessage::Gtid { gtid } => {
                self.stream.gtid =
                gtid::merge_gtid_into_set(self.stream.gtid.as_str(), gtid.as_str());
                none
            },
            MysqlBinlogMessage::Ddl { captured, timestamp_ms, binlog_file, binlog_pos } => {
                let mut events = self.end_for_statement(timestamp_ms, &binlog_file, binlog_pos);
                self.stream.binlog_file = binlog_file;
                self.stream.binlog_pos = binlog_pos;
                let allowed = filter::table_is_allowed(
                    Some(captured.schema.as_str()),
                    captured.table.as_str(),
                    self.table_include_list.as_slice(),
                    self.table_exclude_list.as_slice(),
                );
                if allowed {
                    let offset = parser::format_mysql_source_offset(
                        self.stream.binlog_file.as_str(),
                        self.stream.binlog_pos,
                        self.stream.gtid.as_str(),
                    );
                    let ghost before = event::event_views(events@);
                    let one = captured.to_event(self.source_name.as_str(), offset, timestamp_ms);
                    let ghost seen = one@;
                    events.push(one);
                    proof {
                        assert(event::event_views(events@) =~= before.push(seen));
                    }
                    self.events_polled = self.events_polled.saturating_add(1);
                }
                events
            },
            MysqlBinlogMessage::Truncate { schema, table, timestamp_ms, binlog_file, binlog_pos } => {
                let mut events = self.end_for_statement(timestamp_ms, &binlog_file, binlog_pos);
                let allowed = self.allows(&schema, table.as_str());
                let source = self.source_meta_at(binlog_file.as_str(), binlog_pos, timestamp_ms);
                self.stream.binlog_file = binlog_file;
                self.stream.binlog_pos = binlog_pos;
                if allowed {
                    let ghost before = event::event_views(events@);
                    let one = Event {
                        before: BeforeImage::Unavailable,
                        after: None,
                        op: Operation::Truncate,
                        source,
                        ts: timestamp_ms,
                        schema,
                        table,
                        primary_key: None,
                        snapshot: None,
                        transaction: None,
                        envelope_version: EVENT_ENVELOPE_VERSION,
                        schema_id: None,
                        unavailable_columns: Vec::new(),
                    };
                    proof {
                        assert(one@.unavailable_columns =~= Seq::<Seq<char>>::empty());
                    }
                    let ghost seen = one@;
                    events.push(one);
                    proof {
                        assert(event::event_views(events@) =~= before.push(seen));
                    }
                    self.events_polled = self.events_polled.saturating_add(1);
                }
                events
            },
            MysqlBinlogMessage::Heartbeat => none,
        }
    }

    /// Processes messages in order and gives the events that are due; see [`run`].
    pub fn process_messages(&mut self, messages: Vec<MysqlBinlogMessage>, now: u64) -> (events:
        Vec<Event>)
        ensures
            final(self).same_otherwise(*old(self)),
            (final(self).progress(), event::event_views(events@)) == run(
                old(self).settings(),
                old(self).progress(),
                message_views(messages@),
                now,
            ),
    {
        let ghost settings = self.settings();
        let ghost start = self.progress();
        let ghost all = messages@;
        let ghost views = message_views(all);
        let ghost before_all = *self;
        let mut events: Vec<Event> = Vec::new();
        proof {
            assert(event::event_views(events@) =~= Seq::<EventView>::empty());
            assert(views.take(0) =~= Seq::<MessageView>::empty());
        }
        for message in iter: messages
            invariant
                iter.seq() == all,
                views == message_views(all),
                settings == before_all.settings(),
                self.same_otherwise(before_all),
                (self.progress(), event::event_views(events@)) == run(
                    settings,
                    start,
                    views.take(iter.index() as int),
                    now,
                ),
        {
            let ghost n = iter.index() as int;
            let ghost done = event::event_views(events@);
            proof {
                assert(views.take(n + 1).drop_last() =~= views.take(n));
                assert(views.take(n + 1).last() == message@);
            }
            let mut more = self.process_message(message, now);
            let ghost fresh = event::event_views(more@);
            events.append(&mut more);
            proof {
                assert(event::event_views(events@) =~= done + fresh);
            }
        }
        proof {
            assert(views.take(all.len() as int) =~= views);
        }
        events
    }

    /// The events that were handed back, to be delivered before anything new is read; `None`
    /// where nothing was. Fails where the stream is not running.
    pub fn take_requeued(&mut self) -> (events: Result<Option<Vec<Event>>, Error>)
        ensures
            match events {
                Err(error) => old(self).stream.stream_state != StreamState::Streaming
                    && error is StateError && error.text() == NOT_RUNNING@ && *final(self) == *old(
                    self,
                ),
                Ok(None) => old(self).stream.stream_state == StreamState::Streaming
                    && old(self).requeued_events@.len() == 0 && *final(self) == *old(self),
                Ok(Some(events)) => {
                    &&& old(self).stream.stream_state == StreamState::Streaming
                    &&& old(self).requeued_events@.len() > 0
                    &&& events@ == old(self).requeued_events@
                    &&& final(self).requeued_events@.len() == 0
                    &&& *final(self) == (MysqlStreamHandle {
                        requeued_events: final(self).requeued_events,
                        ..*old(self)
                    })
                },
            },
    {
        if self.stream.stream_state != StreamState::Streaming {
            return Err(Error::StateError(NOT_RUNNING.to_owned()));
        }
        if self.requeued_events.len() == 0 {
            return Ok(None);
        }
        let ghost all = self.requeued_events@;
        let mut queue: VecDeque<Event> = VecDeque::new();
        std::mem::swap(&mut queue, &mut self.requeued_events);
        let mut events: Vec<Event> = Vec::new();
        proof {
            assert(all.skip(0) =~= all);
            assert(all.take(0) =~= Seq::<Event>::empty());
        }
        while queue.len() > 0
            invariant
                events@.len() <= all.len(),
                events@ == all.take(events@.len() as int),
                queue@ == all.skip(events@.len() as int),
            decreases queue@.len(),
        {
            let ghost n = events@.len() as int;
            if let Some(one) = queue.pop_front() {
                proof {
                    assert(all.take(n + 1) =~= all.take(n).push(one));
                    assert(queue@ =~= all.skip(n + 1));
                }
                events.push(one);
            }
        }
        proof {
            assert(events@ =~= all);
        }
        Ok(Some(events))
    }

    /// Hands events back, to be delivered again in order.
    pub fn requeue_events(&mut self, events: Vec<Event>)
        ensures
            final(self).requeued_events@ == old(self).requeued_events@ + events@,
            *final(self) == (MysqlStreamHandle {
                requeued_events: final(self).requeued_events,
                ..*old(self)
            }),
    {
        let ghost all = events@;
        let ghost held = self.requeued_events@;
        let mut queue: VecDeque<Event> = VecDeque::new();
        std::mem::swap(&mut queue, &mut self.requeued_events);
        proof {
            assert(held + all.take(0) =~= held);
        }
        for one in iter: events
            invariant
                iter.seq() == all,
                queue@ == held + all.take(iter.index() as int),
        {
            let ghost n = iter.index() as int;
            queue.push_back(one);
            proof {
                assert(held + all.take(n + 1) =~= (held + all.take(n)).push(all[n]));
            }
        }
        proof {
            assert(all.take(all.len() as int) =~= all);
        }
        self.requeued_events = queue;
    }

    /// The place to resume from. It names the flavor, so that a MariaDB stream does not write
    /// where only a MySQL stream looks.
    pub fn position_offset(&self) -> (offset: MysqlOffset)
        ensures
            offset.source_flavor@ == self.source_name@,
            offset.binlog_file@ == self.stream.binlog_file@,
            offset.binlog_pos == self.stream.binlog_pos,
            offset.gtid@ == self.stream.gtid@,
    {
        MysqlOffset::new(
            self.source_name.clone(),
            self.stream.binlog_file.clone(),
            self.stream.binlog_pos,
            self.stream.gtid.clone(),
        )
    }
}

} // verus!
