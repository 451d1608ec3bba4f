//! The pgoutput stream: from messages to committed change events.
use std::collections::{HashMap, VecDeque};
use vstd::prelude::*;
use crate::base64_text;
use crate::error::Error;
use crate::event;
use crate::event::{
    BeforeImage, BeforeView, Event, EventView, Operation, SourceMetadata, SourceView,
    TransactionMetadata, EVENT_ENVELOPE_VERSION,
};
use crate::filter;
use crate::json;
use crate::json::Json;
use crate::postgres::decoder;
use crate::postgres::decoder::{
    MessageView, PgBegin, PgCommit, PgDelete, PgInsert, PgLogicalMessage, PgOutputMessage,
    PgRelation, PgTruncate, PgUpdate, PgValue, PgValueView, RelationView,
};
use crate::postgres::lsn;
use crate::postgres::relation;
use crate::postgres::relation::IdentityFault;
use crate::schema;
use crate::schema::{CapturedDdl, CatalogColumn, DdlView, TableMap};
use crate::text;
use crate::utf8;

verus! {

broadcast use vstd::std_specs::hash::group_hash_axioms;

/// How many transaction ends are remembered at most.
pub const MAX_TRACKED_TX_ENDS: usize = 100_000;

/// A frame of the stream: a message and its place in the log.
#[derive(Debug, PartialEq, Eq)]
pub struct PgOutputXLogData {
    pub lsn: u64,
    pub data: Vec<u8>,
}

/// Whether a stream is running.
#[derive(Clone, Copy, Debug, PartialEq, Eq, Structural)]
pub enum StreamState {
    Starting,
    Streaming,
    Stopped,
}

/// Where the stream stands in the log.
#[derive(Debug, PartialEq, Eq)]
pub struct PostgresStream {
    pub slot_name: String,
    pub publication_name: String,
    /// The place after the last commit.
    pub lsn_position: u64,
    pub replication_status: StreamState,
}

/// A live pgoutput stream over a logical replication slot.
pub struct PostgresStreamHandle {
    pub source_name: String,
    pub stream: PostgresStream,
    /// The shapes that the stream has sent, by relation number.
    pub relation_map: HashMap<u32, PgRelation>,
    /// The identity of the shape that each relation was last announced under.
    pub relation_schema_ids: HashMap<u32, String>,
    /// Primary keys by table, read from the catalog when the stream started.
    pub catalog_primary_keys: TableMap<Vec<String>>,
    /// Declared columns by table, from the same read.
    pub catalog_columns: TableMap<Vec<CatalogColumn>>,
    /// Relations whose changes identify no row, each once.
    pub identity_faults: Vec<(u32, IdentityFault)>,
    /// Tags of messages that were passed over, each once.
    pub unknown_tags: Vec<u8>,
    /// The transaction that is open.
    pub current_xid: Option<u32>,
    pub current_commit_ts: u64,
    /// The events of the open transaction.
    pub partial_tx_events: Vec<Event>,
    /// The ends of delivered transactions that are not confirmed yet.
    pub committed_tx_ends: VecDeque<(u64, u64)>,
    pub events_polled: u64,
    pub max_events_per_poll: usize,
    /// How many changes the next peek asks for.
    pub peek_window: usize,
    pub stream_poll_interval_ms: u64,
    /// Milliseconds between advances of an idle slot; zero for none.
    pub slot_idle_advance_interval_ms: u64,
    /// When the slot was last advanced or gave data, in milliseconds of some clock.
    pub last_idle_advance_at: Option<u64>,
    /// When the slot's lag was last measured, in milliseconds of the same clock.
    pub last_slot_lag_at: Option<u64>,
    pub last_slot_lag_bytes: u64,
    pub table_include_list: Vec<String>,
    pub table_exclude_list: Vec<String>,
}

/// What changes while messages are processed.
pub struct StreamView {
    pub position: u64,
    pub xid: Option<u32>,
    pub commit_ts: u64,
    pub partial: Seq<EventView>,
    pub relations: Map<u32, RelationView>,
    pub schema_ids: Map<u32, Seq<char>>,
    pub ends: Seq<(u64, u64)>,
    pub polled: u64,
    pub faults: Seq<(u32, IdentityFault)>,
    pub unknown: Seq<u8>,
}

/// What stays the same while messages are processed.
pub struct StreamSettings {
    pub source_name: Seq<char>,
    pub include_list: Seq<Seq<char>>,
    pub exclude_list: Seq<Seq<char>>,
    pub columns: TableMap<Vec<CatalogColumn>>,
    pub keys: TableMap<Vec<String>>,
}

/// What some relations hold.
pub open spec fn relation_views(relations: Map<u32, PgRelation>) -> Map<u32, RelationView> {
    relations.map_values(|relation: PgRelation| relation@)
}

/// What some names hold.
pub open spec fn id_views(ids: Map<u32, String>) -> Map<u32, Seq<char>> {
    ids.map_values(|id: String| id@)
}

impl PostgresStreamHandle {
    /// What changes while messages are processed.
    pub open spec fn progress(self) -> StreamView {
        StreamView {
            position: self.stream.lsn_position,
            xid: self.current_xid,
            commit_ts: self.current_commit_ts,
            partial: event::event_views(self.partial_tx_events@),
            relations: relation_views(self.relation_map@),
            schema_ids: id_views(self.relation_schema_ids@),
            ends: self.committed_tx_ends@,
            polled: self.events_polled,
            faults: self.identity_faults@,
            unknown: self.unknown_tags@,
        }
    }

    /// What stays the same while messages are processed.
    pub open spec fn settings(self) -> StreamSettings {
        StreamSettings {
            source_name: self.source_name@,
            include_list: text::texts(self.table_include_list@),
            exclude_list: text::texts(self.table_exclude_list@),
            columns: self.catalog_columns,
            keys: self.catalog_primary_keys,
        }
    }

    /// The same apart from what [`PostgresStreamHandle::progress`] says.
    pub open spec fn same_otherwise(self, other: Self) -> bool {
        &&& self.settings() == other.settings()
        &&& self.stream.slot_name == other.stream.slot_name
        &&& self.stream.publication_name == other.stream.publication_name
        &&& self.stream.replication_status == other.stream.replication_status
        &&& self.max_events_per_poll == other.max_events_per_poll
        &&& self.peek_window == other.peek_window
        &&& self.stream_poll_interval_ms == other.stream_poll_interval_ms
        &&& self.slot_idle_advance_interval_ms == other.slot_idle_advance_interval_ms
        &&& self.last_idle_advance_at == other.last_idle_advance_at
        &&& self.last_slot_lag_at == other.last_slot_lag_at
        &&& self.last_slot_lag_bytes == other.last_slot_lag_bytes
    }
}

// Events

/// The transaction tag of the next event of the open transaction.
pub open spec fn next_tag(xid: Option<u32>, index: nat) -> Option<TransactionMetadata> {
    match xid {
        Some(xid) => Some(
            TransactionMetadata {
                tx_id: xid as u64,
                total_events: None,
                event_index: index as u32,
            },
        ),
        None => None,
    }
}

/// The name of a relation's table.
pub open spec fn table_of(state: StreamView, oid: u32) -> Seq<char> {
    if state.relations.contains_key(oid) {
        state.relations[oid].name
    } else {
        "unknown_"@ + text::decimal_text(oid as nat)
    }
}

/// The schema of a relation's table.
pub open spec fn schema_of(state: StreamView, oid: u32) -> Option<Seq<char>> {
    if state.relations.contains_key(oid) {
        Some(state.relations[oid].namespace)
    } else {
        None
    }
}

/// The identity of the shape that a relation was last announced under.
pub open spec fn schema_id_of(state: StreamView, oid: u32) -> Option<Seq<char>> {
    if state.schema_ids.contains_key(oid) {
        Some(state.schema_ids[oid])
    } else {
        None
    }
}

/// The primary key of a relation's table.
pub open spec fn key_of(settings: StreamSettings, state: StreamView, oid: u32) -> Option<
    Seq<Seq<char>>,
> {
    if state.relations.contains_key(oid) {
        relation::key_of(settings.keys, state.relations[oid])
    } else {
        None
    }
}

/// A row of a relation, and its holes. A relation that the stream has not described has none.
pub open spec fn row_of(state: StreamView, oid: u32, values: Seq<PgValueView>) -> Option<
    (Json, Seq<Seq<char>>),
> {
    if state.relations.contains_key(oid) {
        relation::row_of(state.relations[oid], values)
    } else {
        None
    }
}

/// What follows the number of a relation that the stream has not described.
pub const UNKNOWN_RELATION_REMEDY: &'static str = " for which no RELATION message has been seen. pgoutput guarantees RELATION precedes any row referencing it, so the decoder state is inconsistent and the row cannot be attributed to a table. Dropping it would lose data silently. Restart the connector to rebuild the relation cache.";

/// What is told of a row of a relation that the stream has not described, or that does not fit its
/// description.
pub open spec fn row_fault(state: StreamView, oid: u32, size: nat) -> Seq<char> {
    if state.relations.contains_key(oid) {
        relation::overlong_text(state.relations[oid], size)
    } else {
        "postgres row event references relation oid "@ + text::decimal_text(oid as nat)
            + UNKNOWN_RELATION_REMEDY@
    }
}

/// What is told of an old image that cannot be made out.
pub open spec fn image_fault(
    state: StreamView,
    oid: u32,
    key_tuple: Option<Seq<PgValueView>>,
    old_tuple: Option<Seq<PgValueView>>,
) -> Seq<char> {
    match old_tuple {
        Some(values) => row_fault(state, oid, values.len()),
        None => row_fault(state, oid, (key_tuple->0).len()),
    }
}

/// The event of a change to a relation's table.
pub open spec fn change_event(
    settings: StreamSettings,
    state: StreamView,
    oid: u32,
    place: u64,
    op: Operation,
    before: BeforeView,
    after: Option<Json>,
    holes: Seq<Seq<char>>,
) -> EventView {
    EventView {
        before,
        after,
        op,
        source: SourceView {
            source_name: settings.source_name,
            offset: lsn::lsn_text(place),
            timestamp: state.commit_ts,
        },
        ts: state.commit_ts,
        schema: schema_of(state, oid),
        table: table_of(state, oid),
        primary_key: if op == Operation::Truncate {
            None
        } else {
            key_of(settings, state, oid)
        },
        snapshot: None,
        transaction: next_tag(state.xid, state.partial.len()),
        envelope_version: EVENT_ENVELOPE_VERSION,
        schema_id: schema_id_of(state, oid),
        unavailable_columns: holes,
    }
}

/// The old image of a row: the whole row with its own holes, or its key, or nothing. The holes of
/// the old row are not those of the new one, and are kept apart from them.
pub open spec fn old_image(
    state: StreamView,
    oid: u32,
    key_tuple: Option<Seq<PgValueView>>,
    old_tuple: Option<Seq<PgValueView>>,
) -> Option<BeforeView> {
    match old_tuple {
        Some(values) => match row_of(state, oid, values) {
            Some((row, unavailable_columns)) => Some(
                BeforeView::Full { row, unavailable_columns },
            ),
            None => None,
        },
        None => match key_tuple {
            Some(values) => match row_of(state, oid, values) {
                Some((row, _)) => Some(BeforeView::KeyOnly(row)),
                None => None,
            },
            None => Some(BeforeView::Unavailable),
        },
    }
}

/// Whether a relation's table is captured.
pub open spec fn captured(settings: StreamSettings, state: StreamView, oid: u32) -> bool {
    filter::allowed(
        schema_of(state, oid),
        table_of(state, oid),
        settings.include_list,
        settings.exclude_list,
    )
}

/// The time of an event: its transaction's, or the present outside one.
pub open spec fn time_of(state: StreamView, now: u64) -> u64 {
    if state.commit_ts == 0 {
        now
    } else {
        state.commit_ts
    }
}

/// The table that an application's messages come under.
pub open spec fn message_table(prefix: Seq<char>) -> Seq<char> {
    prefix + "__messages"@
}

/// The payload of an application's message: its content as text where it is text, and in base64
/// where it is not.
pub open spec fn message_json(
    transactional: bool,
    place: u64,
    prefix: Seq<char>,
    content: Seq<u8>,
) -> Json {
    let readable = vstd::utf8::valid_utf8(content);
    Json::Object(
        Map::<Seq<char>, Json>::empty().insert("prefix"@, Json::Text(prefix)).insert(
            "content"@,
            Json::Text(
                if readable {
                    vstd::utf8::decode_utf8(content)
                } else {
                    base64_text::base64_text(content)
                },
            ),
        ).insert(
            "content_encoding"@,
            Json::Text(
                if readable {
                    "utf8"@
                } else {
                    "base64"@
                },
            ),
        ).insert("transactional"@, Json::Bool(transactional)).insert(
            "lsn"@,
            Json::Text(lsn::lsn_text(place)),
        ),
    )
}

/// The event of an application's message. It belongs to no schema.
pub open spec fn message_event(
    settings: StreamSettings,
    state: StreamView,
    frame: u64,
    transactional: bool,
    place: u64,
    prefix: Seq<char>,
    content: Seq<u8>,
    now: u64,
) -> EventView {
    EventView {
        before: BeforeView::Unavailable,
        after: Some(message_json(transactional, place, prefix, content)),
        op: Operation::Message,
        source: SourceView {
            source_name: settings.source_name,
            offset: lsn::lsn_text(frame),
            timestamp: state.commit_ts,
        },
        ts: time_of(state, now),
        schema: None,
        table: message_table(prefix),
        primary_key: None,
        snapshot: None,
        transaction: next_tag(state.xid, state.partial.len()),
        envelope_version: EVENT_ENVELOPE_VERSION,
        schema_id: None,
        unavailable_columns: Seq::empty(),
    }
}

/// The event that tells a table's shape: an observation at first sight, a change afterwards. A
/// frame without a place takes the stream's, so that a checkpoint there never goes back.
pub open spec fn shape_event(
    settings: StreamSettings,
    state: StreamView,
    seen: RelationView,
    frame: u64,
    first_sight: bool,
    now: u64,
) -> EventView {
    let ts = time_of(state, now);
    let place = if frame == 0 {
        state.position
    } else {
        frame
    };
    let ddl = DdlView {
        ddl_type: if first_sight {
            schema::DDL_TYPE_READ_SCHEMA@
        } else {
            "ALTER_TABLE"@
        },
        schema: seen.namespace,
        table: seen.name,
        statement: if first_sight {
            schema::observation(seen.namespace, seen.name, "pgoutput RELATION"@)
        } else {
            "ALTER TABLE "@ + seen.namespace + "."@ + seen.name
                + " /* derived from pgoutput RELATION metadata */"@
        },
        result_schema: Some(relation::shape_of(settings.keys, settings.columns, seen)),
        ts,
    };
    EventView {
        transaction: next_tag(state.xid, state.partial.len()),
        ..schema::ddl_event(ddl, settings.source_name, lsn::lsn_text(place), ts)
    }
}

// Steps

/// A sum of counts, at most the largest count.
pub open spec fn counted(count: u64, more: nat) -> u64 {
    if count + more > u64::MAX {
        u64::MAX
    } else {
        (count + more) as u64
    }
}

/// An event of a transaction as its commit delivers it: with the transaction's size.
pub open spec fn totalled(one: EventView, total: u32) -> EventView {
    EventView {
        transaction: match one.transaction {
            Some(tx) => Some(TransactionMetadata { total_events: Some(total), ..tx }),
            None => None,
        },
        ..one
    }
}

/// The latest ends of transactions, as many as are remembered.
pub open spec fn latest_ends(ends: Seq<(u64, u64)>) -> Seq<(u64, u64)> {
    if ends.len() > MAX_TRACKED_TX_ENDS {
        ends.skip(ends.len() - MAX_TRACKED_TX_ENDS)
    } else {
        ends
    }
}

/// The state once a transaction has started. What an unfinished one left is dropped.
pub open spec fn begun(state: StreamView, begin: PgBegin) -> StreamView {
    StreamView {
        xid: Some(begin.xid),
        commit_ts: lsn::unix_millis(begin.commit_timestamp_us),
        partial: Seq::empty(),
        ..state
    }
}

/// The events that a commit delivers.
pub open spec fn commit_events(state: StreamView) -> Seq<EventView> {
    state.partial.map_values(|one: EventView| totalled(one, state.partial.len() as u32))
}

/// The state once a transaction has committed.
pub open spec fn committed(state: StreamView, commit: PgCommit) -> StreamView {
    StreamView {
        position: commit.end_lsn,
        xid: None,
        commit_ts: 0,
        partial: Seq::empty(),
        ends: match state.xid {
            Some(xid) => latest_ends(state.ends.push((xid as u64, commit.end_lsn))),
            None => state.ends,
        },
        polled: counted(state.polled, (state.partial.len() as u32) as nat),
        ..state
    }
}

/// Whether a relation is among those found faulty.
pub open spec fn already_faulty(faults: Seq<(u32, IdentityFault)>, oid: u32) -> bool {
    exists|i: int| 0 <= i < faults.len() && (#[trigger] faults[i]).0 == oid
}

/// The state once a relation has been described, whether its table is captured or not.
pub open spec fn described(settings: StreamSettings, state: StreamView, seen: RelationView) -> StreamView {
    StreamView {
        relations: state.relations.insert(seen.oid, seen),
        schema_ids: state.schema_ids.insert(
            seen.oid,
            schema::shape_text(relation::shape_of(settings.keys, settings.columns, seen)),
        ),
        faults: match relation::identity_fault(settings.keys, seen) {
            Some(fault) => if already_faulty(state.faults, seen.oid) {
                state.faults
            } else {
                state.faults.push((seen.oid, fault))
            },
            None => state.faults,
        },
        ..state
    }
}

/// The state with an event of the open transaction, or the event delivered at once.
pub open spec fn taken(state: StreamView, one: EventView, hold: bool) -> (
    StreamView,
    Seq<EventView>,
) {
    if hold {
        (StreamView { partial: state.partial.push(one), ..state }, Seq::empty())
    } else {
        (StreamView { polled: counted(state.polled, 1), ..state }, seq![one])
    }
}

/// The state with an event of the open transaction.
pub open spec fn held(state: StreamView, one: EventView) -> StreamView {
    StreamView { partial: state.partial.push(one), ..state }
}

/// The state with the events of a truncation, of the tables that are captured.
pub open spec fn truncated(
    settings: StreamSettings,
    start: StreamView,
    state: StreamView,
    oids: Seq<u32>,
    frame: u64,
) -> StreamView
    decreases oids.len(),
{
    if oids.len() == 0 {
        state
    } else {
        let before = truncated(settings, start, state, oids.drop_last(), frame);
        if captured(settings, start, oids.last()) {
            held(
                before,
                change_event(
                    settings,
                    start,
                    oids.last(),
                    frame,
                    Operation::Truncate,
                    BeforeView::Unavailable,
                    None,
                    Seq::empty(),
                ),
            )
        } else {
            before
        }
    }
}

/// Whether a tag belongs to a later version of the protocol, whose messages cannot be passed over:
/// they move the bounds of transactions.
pub open spec fn later_protocol(tag: u8) -> bool {
    tag == 0x53 || tag == 0x45 || tag == 0x63 || tag == 0x41 || tag == 0x70 || tag == 0x62 || tag
        == 0x50 || tag == 0x4b || tag == 0x72
}

/// The state after a message, and the events that it delivers; nothing where it cannot be gone on
/// from.
pub open spec fn step(
    settings: StreamSettings,
    state: StreamView,
    frame: u64,
    message: MessageView,
    now: u64,
) -> Option<(StreamView, Seq<EventView>)> {
    match message {
        MessageView::Begin(begin) => Some((begun(state, begin), Seq::empty())),
        MessageView::Commit(commit) => Some((committed(state, commit), commit_events(state))),
        MessageView::Relation(seen) => {
            let known = state.relations.contains_key(seen.oid);
            let next = described(settings, state, seen);
            if (!known || state.relations[seen.oid] != seen) && filter::allowed(
                Some(seen.namespace),
                seen.name,
                settings.include_list,
                settings.exclude_list,
            ) {
                Some(
                    taken(
                        next,
                        shape_event(settings, next, seen, frame, !known, now),
                        next.xid is Some,
                    ),
                )
            } else {
                Some((next, Seq::empty()))
            }
        },
        MessageView::LogicalMessage { transactional, lsn: place, prefix, content } => {
            if filter::allowed(
                None,
                message_table(prefix),
                settings.include_list,
                settings.exclude_list,
            ) {
                Some(
                    taken(
                        state,
                        message_event(
                            settings,
                            state,
                            frame,
                            transactional,
                            place,
                            prefix,
                            content,
                            now,
                        ),
                        transactional && state.xid is Some,
                    ),
                )
            } else {
                Some((state, Seq::empty()))
            }
        },
        MessageView::Insert { oid, new_tuple } => if captured(settings, state, oid) {
            match row_of(state, oid, new_tuple) {
                Some((row, holes)) => Some(
                    (
                        held(
                            state,
                            change_event(
                                settings,
                                state,
                                oid,
                                frame,
                                Operation::Insert,
                                BeforeView::Unavailable,
                                Some(row),
                                holes,
                            ),
                        ),
                        Seq::empty(),
                    ),
                ),
                None => None,
            }
        } else {
            Some((state, Seq::empty()))
        },
        MessageView::Update { oid, key_tuple, old_tuple, new_tuple } => if captured(
            settings,
            state,
            oid,
        ) {
            match (row_of(state, oid, new_tuple), old_image(state, oid, key_tuple, old_tuple)) {
                (Some((row, holes)), Some(before)) => Some(
                    (
                        held(
                            state,
                            change_event(
                                settings,
                                state,
                                oid,
                                frame,
                                Operation::Update,
                                before,
                                Some(row),
                                holes,
                            ),
                        ),
                        Seq::empty(),
                    ),
                ),
                _ => None,
            }
        } else {
            Some((state, Seq::empty()))
        },
        MessageView::Delete { oid, key_tuple, old_tuple } => if captured(settings, state, oid) {
            match old_image(state, oid, key_tuple, old_tuple) {
                Some(before) => Some(
                    (
                        held(
                            state,
                            change_event(
                                settings,
                                state,
                                oid,
                                frame,
                                Operation::Delete,
                                before,
                                None,
                                Seq::empty(),
                            ),
                        ),
                        Seq::empty(),
                    ),
                ),
                None => None,
            }
        } else {
            Some((state, Seq::empty()))
        },
        MessageView::Truncate { options, oids } => Some(
            (truncated(settings, state, state, oids, frame), Seq::empty()),
        ),
        MessageView::Unknown(tag) => if later_protocol(tag) {
            None
        } else if state.unknown.contains(tag) {
            Some((state, Seq::empty()))
        } else {
            Some((StreamView { unknown: state.unknown.push(tag), ..state }, Seq::empty()))
        },
    }
}

/// How what is told of a message of a later protocol ends.
pub const LATER_PROTOCOL_REMEDY: &'static str = "), which belongs to protocol version 2 or 3, but this connector negotiated proto_version 1 and cannot interpret it. Skipping it would misrepresent transaction boundaries — and skipping a Stream Abort would commit data the source rolled back. This indicates a server/plugin mismatch.";

/// What is told of a message of a later protocol.
pub open spec fn later_protocol_text(tag: u8) -> Seq<char> {
    "postgres sent pgoutput message '"@ + seq![tag as char] + "' (0x"@ + text::hex_pair(tag) + LATER_PROTOCOL_REMEDY@
}

/// What is told of a message that cannot be gone on from: the row's fault, before that of its old
/// image, or the protocol's.
pub open spec fn step_fault(state: StreamView, message: MessageView) -> Seq<char> {
    match message {
        MessageView::Insert { oid, new_tuple } => row_fault(state, oid, new_tuple.len()),
        MessageView::Update { oid, key_tuple, old_tuple, new_tuple } => if row_of(
            state,
            oid,
            new_tuple,
        ) is None {
            row_fault(state, oid, new_tuple.len())
        } else {
            image_fault(state, oid, key_tuple, old_tuple)
        },
        MessageView::Delete { oid, key_tuple, old_tuple } => image_fault(
            state,
            oid,
            key_tuple,
            old_tuple,
        ),
        MessageView::Unknown(tag) => later_protocol_text(tag),
        _ => Seq::empty(),
    }
}

/// What is told of a frame that cannot be gone on from.
pub open spec fn frame_fault(state: StreamView, frame: PgOutputXLogData) -> Seq<char> {
    match decoder::message_in(frame.data@) {
        Some(message) => step_fault(state, message),
        None => decoder::refusal(frame.data@),
    }
}

/// What is told of the first of some frames that cannot be gone on from.
pub open spec fn run_fault(
    settings: StreamSettings,
    state: StreamView,
    frames: Seq<PgOutputXLogData>,
    now: u64,
) -> Seq<char>
    decreases frames.len(),
{
    if frames.len() == 0 {
        Seq::empty()
    } else {
        let before = run(settings, state, frames.drop_last(), now);
        if before.2 {
            frame_fault(before.0, frames.last())
        } else {
            run_fault(settings, state, frames.drop_last(), now)
        }
    }
}

/// The state after a frame, and the events that it delivers; nothing where its bytes hold no
/// message, or one that cannot be gone on from.
pub open spec fn frame_step(
    settings: StreamSettings,
    state: StreamView,
    frame: PgOutputXLogData,
    now: u64,
) -> Option<(StreamView, Seq<EventView>)> {
    match decoder::message_in(frame.data@) {
        Some(message) => step(settings, state, frame.lsn, message, now),
        None => None,
    }
}

/// The state after frames in order, the events that they deliver, and whether all of them were
/// gone through. The first that cannot be gone on from stops the rest, and leaves no mark.
pub open spec fn run(
    settings: StreamSettings,
    state: StreamView,
    frames: Seq<PgOutputXLogData>,
    now: u64,
) -> (StreamView, Seq<EventView>, bool)
    decreases frames.len(),
{
    if frames.len() == 0 {
        (state, Seq::empty(), true)
    } else {
        let before = run(settings, state, frames.drop_last(), now);
        if !before.2 {
            before
        } else {
            match frame_step(settings, before.0, frames.last(), now) {
                Some((next, events)) => (next, before.1 + events, true),
                None => (before.0, before.1, false),
            }
        }
    }
}

/// A tag as the character that it stands for.
fn tag_text(tag: u8) -> (out: String)
    ensures
        out@ == seq![tag as char],
{
    let mut out = String::new();
    out.push(tag as char);
    proof {
        assert(out@ =~= seq![tag as char]);
    }
    out
}

impl PostgresStreamHandle {
    /// A stream at a place in the log, with nothing read yet.
    pub fn new(
        source_name: String,
        stream: PostgresStream,
        max_events_per_poll: usize,
        stream_poll_interval_ms: u64,
        slot_idle_advance_interval_ms: u64,
        table_include_list: Vec<String>,
        table_exclude_list: Vec<String>,
        catalog_primary_keys: TableMap<Vec<String>>,
        catalog_columns: TableMap<Vec<CatalogColumn>>,
    ) -> (handle: Self)
        ensures
            handle.stream == stream,
            handle.settings() == (StreamSettings {
                source_name: source_name@,
                include_list: text::texts(table_include_list@),
                exclude_list: text::texts(table_exclude_list@),
                columns: catalog_columns,
                keys: catalog_primary_keys,
            }),
            handle.progress() == (StreamView {
                position: stream.lsn_position,
                xid: None,
                commit_ts: 0,
                partial: Seq::empty(),
                relations: Map::empty(),
                schema_ids: Map::empty(),
                ends: Seq::empty(),
                polled: 0,
                faults: Seq::empty(),
                unknown: Seq::empty(),
            }),
            handle.max_events_per_poll == (if max_events_per_poll == 0 {
                1
            } else {
                max_events_per_poll
            }),
            handle.peek_window == handle.max_events_per_poll,
            handle.stream_poll_interval_ms == (if stream_poll_interval_ms == 0 {
                1
            } else {
                stream_poll_interval_ms
            }),
            handle.slot_idle_advance_interval_ms == slot_idle_advance_interval_ms,
            handle.last_idle_advance_at is None,
            handle.last_slot_lag_at is None,
            handle.last_slot_lag_bytes == 0,
    {
        let window = if max_events_per_poll == 0 {
            1
        } else {
            max_events_per_poll
        };
        let handle = PostgresStreamHandle {
            source_name,
            stream,
            relation_map: HashMap::new(),
            relation_schema_ids: HashMap::new(),
            catalog_primary_keys,
            catalog_columns,
            identity_faults: Vec::new(),
            unknown_tags: Vec::new(),
            current_xid: None,
            current_commit_ts: 0,
            partial_tx_events: Vec::new(),
            committed_tx_ends: VecDeque::new(),
            events_polled: 0,
            max_events_per_poll: window,
            peek_window: window,
            stream_poll_interval_ms: if stream_poll_interval_ms == 0 {
                1
            } else {
                stream_poll_interval_ms
            },
            slot_idle_advance_interval_ms,
            last_idle_advance_at: None,
            last_slot_lag_at: None,
            last_slot_lag_bytes: 0,
            table_include_list,
            table_exclude_list,
        };
        proof {
            assert(handle.progress().partial =~= Seq::<EventView>::empty());
            assert(handle.progress().relations =~= Map::<u32, RelationView>::empty());
            assert(handle.progress().schema_ids =~= Map::<u32, Seq<char>>::empty());
        }
        handle
    }

    fn tx_meta(&self) -> (tag: Option<TransactionMetadata>)
        ensures
            tag == next_tag(self.progress().xid, self.progress().partial.len()),
    {
        match self.current_xid {
            Some(xid) => Some(
                TransactionMetadata {
                    tx_id: xid as u64,
                    total_events: None,
                    event_index: self.partial_tx_events.len() as u32,
                },
            ),
            None => None,
        }
    }

    fn source_meta(&self, place: u64) -> (source: SourceMetadata)
        ensures
            source@ == (SourceView {
                source_name: self.source_name@,
                offset: lsn::lsn_text(place),
                timestamp: self.current_commit_ts,
            }),
    {
        SourceMetadata {
            source_name: self.source_name.clone(),
            offset: lsn::format_pg_lsn(place),
            timestamp: self.current_commit_ts,
        }
    }

    fn relation_table_name(&self, oid: u32) -> (name: String)
        ensures
            name@ == table_of(self.progress(), oid),
    {
        match self.relation_map.get(&oid) {
            Some(found) => found.name.clone(),
            None => text::join2("unknown_", text::decimal(oid as u64).as_str()),
        }
    }

    fn relation_schema(&self, oid: u32) -> (name: Option<String>)
        ensures
            text::text_option(name) == schema_of(self.progress(), oid),
    {
        match self.relation_map.get(&oid) {
            Some(found) => Some(found.namespace.clone()),
            None => None,
        }
    }

    fn relation_schema_id(&self, oid: u32) -> (id: Option<String>)
        ensures
            text::text_option(id) == schema_id_of(self.progress(), oid),
    {
        match self.relation_schema_ids.get(&oid) {
            Some(found) => Some(found.clone()),
            None => None,
        }
    }

    fn relation_primary_key(&self, oid: u32) -> (key: Option<Vec<String>>)
        ensures
            event::key_names(key) == key_of(self.settings(), self.progress(), oid),
    {
        match self.relation_map.get(&oid) {
            Some(found) => relation::resolve_primary_key(&self.catalog_primary_keys, found),
            None => None,
        }
    }

    fn is_captured(&self, oid: u32) -> (yes: bool)
        ensures
            yes == captured(self.settings(), self.progress(), oid),
    {
        let schema = self.relation_schema(oid);
        let table = self.relation_table_name(oid);
        match &schema {
            Some(schema) => filter::table_is_allowed(
                Some(schema.as_str()),
                table.as_str(),
                self.table_include_list.as_slice(),
                self.table_exclude_list.as_slice(),
            ),
            None => filter::table_is_allowed(
                None,
                table.as_str(),
                self.table_include_list.as_slice(),
                self.table_exclude_list.as_slice(),
            ),
        }
    }

    /// A row of a relation and its holes. A relation that the stream has not described breaks the
    /// protocol, and its row is not passed over.
    fn tuple_to_json(&self, oid: u32, values: &Vec<PgValue>) -> (row: Result<
        (serde_json::Value, Vec<String>),
        Error,
    >)
        ensures
            match row {
                Ok((row, holes)) => row_of(
                    self.progress(),
                    oid,
                    decoder::value_views(values@),
                ) == Some((json::json(row), text::texts(holes@))),
                Err(error) => row_of(
                    self.progress(),
                    oid,
                    decoder::value_views(values@),
                ) is None && error is SourceError && error.text() == row_fault(
                    self.progress(),
                    oid,
                    values@.len(),
                ),
            },
    {
        match self.relation_map.get(&oid) {
            Some(found) => relation::tuple_to_json(found, values),
            None => Err(
                Error::SourceError(
                    text::join3(
                        "postgres row event references relation oid ",
                        text::decimal(oid as u64).as_str(),
                        UNKNOWN_RELATION_REMEDY,
                    ),
                ),
            ),
        }
    }

    fn build_change(
        &self,
        oid: u32,
        place: u64,
        op: Operation,
        before: BeforeImage,
        after: Option<serde_json::Value>,
        holes: Vec<String>,
    ) -> (one: Event)
        ensures
            one@ == change_event(
                self.settings(),
                self.progress(),
                oid,
                place,
                op,
                before@,
                json::json_option(after),
                text::texts(holes@),
            ),
    {
        let primary_key = match op {
            Operation::Truncate => None,
            _ => self.relation_primary_key(oid),
        };
        Event {
            before,
            after,
            op,
            source: self.source_meta(place),
            ts: self.current_commit_ts,
            schema: self.relation_schema(oid),
            table: self.relation_table_name(oid),
            primary_key,
            snapshot: None,
            transaction: self.tx_meta(),
            envelope_version: EVENT_ENVELOPE_VERSION,
            schema_id: self.relation_schema_id(oid),
            unavailable_columns: holes,
        }
    }

    fn old_row(
        &self,
        oid: u32,
        key_tuple: &Option<Vec<PgValue>>,
        old_tuple: &Option<Vec<PgValue>>,
    ) -> (image: Result<BeforeImage, Error>)
        ensures
            match image {
                Ok(image) => old_image(
                    self.progress(),
                    oid,
                    decoder::tuple_view(*key_tuple),
                    decoder::tuple_view(*old_tuple),
                ) == Some(image@),
                Err(error) => old_image(
                    self.progress(),
                    oid,
                    decoder::tuple_view(*key_tuple),
                    decoder::tuple_view(*old_tuple),
                ) is None && error is SourceError && error.text() == image_fault(
                    self.progress(),
                    oid,
                    decoder::tuple_view(*key_tuple),
                    decoder::tuple_view(*old_tuple),
                ),
            },
    {
        match old_tuple {
            Some(values) => match self.tuple_to_json(oid, values) {
                Ok((row, holes)) => Ok(BeforeImage::full_with_holes(row, holes)),
                Err(error) => Err(error),
            },
            None => match key_tuple {
                Some(values) => match self.tuple_to_json(oid, values) {
                    Ok((row, _)) => Ok(BeforeImage::key_only(row)),
                    Err(error) => Err(error),
                },
                None => Ok(BeforeImage::Unavailable),
            },
        }
    }

    fn build_insert_event(&self, insert: &PgInsert, place: u64) -> (one: Result<Event, Error>)
        ensures
            match one {
                Ok(one) => row_of(
                    self.progress(),
                    insert.relation_oid,
                    decoder::value_views(insert.new_tuple@),
                ) matches Some((row, holes)) && one@ == change_event(
                    self.settings(),
                    self.progress(),
                    insert.relation_oid,
                    place,
                    Operation::Insert,
                    BeforeView::Unavailable,
                    Some(row),
                    holes,
                ),
                Err(error) => error is SourceError && row_of(
                    self.progress(),
                    insert.relation_oid,
                    decoder::value_views(insert.new_tuple@),
                ) is None && error.text() == row_fault(
                    self.progress(),
                    insert.relation_oid,
                    insert.new_tuple@.len(),
                ),
            },
    {
        match self.tuple_to_json(insert.relation_oid, &insert.new_tuple) {
            Ok((row, holes)) => Ok(
                self.build_change(
                    insert.relation_oid,
                    place,
                    Operation::Insert,
                    BeforeImage::Unavailable,
                    Some(row),
                    holes,
                ),
            ),
            Err(error) => Err(error),
        }
    }

    fn build_update_event(&self, update: &PgUpdate, place: u64) -> (one: Result<Event, Error>)
        ensures
            ({
                let row = row_of(
                    self.progress(),
                    update.relation_oid,
                    decoder::value_views(update.new_tuple@),
                );
                let image = old_image(
                    self.progress(),
                    update.relation_oid,
                    decoder::tuple_view(update.key_tuple),
                    decoder::tuple_view(update.old_tuple),
                );
                match one {
                    Ok(one) => row is Some && image is Some && one@ == change_event(
                        self.settings(),
                        self.progress(),
                        update.relation_oid,
                        place,
                        Operation::Update,
                        image->0,
                        Some((row->0).0),
                        (row->0).1,
                    ),
                    Err(error) => error is SourceError && (row is None || image is None)
                        && error.text() == (if row is None {
                        row_fault(
                            self.progress(),
                            update.relation_oid,
                            update.new_tuple@.len(),
                        )
                    } else {
                        image_fault(
                            self.progress(),
                            update.relation_oid,
                            decoder::tuple_view(update.key_tuple),
                            decoder::tuple_view(update.old_tuple),
                        )
                    }),
                }
            }),
    {
        let (row, holes) = match self.tuple_to_json(update.relation_oid, &update.new_tuple) {
            Ok(found) => found,
            Err(error) => {
                return Err(error);
            },
        };
        match self.old_row(update.relation_oid, &update.key_tuple, &update.old_tuple) {
            Ok(before) => Ok(
                self.build_change(
                    update.relation_oid,
                    place,
                    Operation::Update,
                    before,
                    Some(row),
                    holes,
                ),
            ),
            Err(error) => Err(error),
        }
    }

    fn build_delete_event(&self, delete: &PgDelete, place: u64) -> (one: Result<Event, Error>)
        ensures
            ({
                let image = old_image(
                    self.progress(),
                    delete.relation_oid,
                    decoder::tuple_view(delete.key_tuple),
                    decoder::tuple_view(delete.old_tuple),
                );
                match one {
                    Ok(one) => image is Some && one@ == change_event(
                        self.settings(),
                        self.progress(),
                        delete.relation_oid,
                        place,
                        Operation::Delete,
                        image->0,
                        None,
                        Seq::empty(),
                    ),
                    Err(error) => error is SourceError && image is None && error.text()
                        == image_fault(
                        self.progress(),
                        delete.relation_oid,
                        decoder::tuple_view(delete.key_tuple),
                        decoder::tuple_view(delete.old_tuple),
                    ),
                }
            }),
    {
        match self.old_row(delete.relation_oid, &delete.key_tuple, &delete.old_tuple) {
            Ok(before) => {
                let holes: Vec<String> = Vec::new();
                proof {
                    assert(text::texts(holes@) =~= Seq::empty());
                }
                Ok(
                    self.build_change(
                        delete.relation_oid,
                        place,
                        Operation::Delete,
                        before,
                        None,
                        holes,
                    ),
                )
            },
            Err(error) => Err(error),
        }
    }

    /// The events of a truncation, of the tables that are captured.
    fn build_truncate_events(&self, truncate: &PgTruncate, place: u64) -> (events: Vec<Event>)
        ensures
            truncated(
                self.settings(),
                self.progress(),
                self.progress(),
                truncate.relation_oids@,
                place,
            ) == (StreamView {
                partial: self.progress().partial + event::event_views(events@),
                ..self.progress()
            }),
    {
        let ghost settings = self.settings();
        let ghost state = self.progress();
        let ghost oids = truncate.relation_oids@;
        let mut events: Vec<Event> = Vec::new();
        let mut i: usize = 0;
        proof {
            assert(oids.take(0) =~= Seq::empty());
            assert(state.partial + event::event_views(events@) =~= state.partial);
        }
        while i < truncate.relation_oids.len()
            invariant
                i <= oids.len(),
                oids == truncate.relation_oids@,
                settings == self.settings(),
                state == self.progress(),
                truncated(settings, state, state, oids.take(i as int), place) == (StreamView {
                    partial: state.partial + event::event_views(events@),
                    ..state
                }),
            decreases truncate.relation_oids.len() - i,
        {
            let oid = truncate.relation_oids[i];
            let ghost before = event::event_views(events@);
            proof {
                assert(oids.take(i + 1).drop_last() =~= oids.take(i as int));
                assert(oids.take(i + 1).last() == oid);
            }
            if self.is_captured(oid) {
                let holes: Vec<String> = Vec::new();
                proof {
                    assert(text::texts(holes@) =~= Seq::empty());
                }
                let one = self.build_change(
                    oid,
                    place,
                    Operation::Truncate,
                    BeforeImage::Unavailable,
                    None,
                    holes,
                );
                let ghost seen = one@;
                events.push(one);
                proof {
                    assert(event::event_views(events@) =~= before.push(seen));
                    assert(state.partial + before.push(seen) =~= (state.partial + before).push(
                        seen,
                    ));
                }
            }
            i = i + 1;
        }
        proof {
            assert(oids.take(i as int) =~= oids);
        }
        events
    }

    fn build_logical_message_event(&self, message: &PgLogicalMessage, frame: u64, now: u64) -> (one:
        Event)
        requires
            message.content@.len() <= 0x7fff_ffff,
        ensures
            one@ == message_event(
                self.settings(),
                self.progress(),
                frame,
                message.transactional,
                message.lsn,
                message.prefix@,
                message.content@,
                now,
            ),
    {
        let readable = utf8::decode(message.content.as_slice());
        let mut value = json::object();
        json::set_member(&mut value, "prefix".to_owned(), json::string(message.prefix.clone()));
        match readable {
            Some(found) => {
                json::set_member(&mut value, "content".to_owned(), json::string(found));
                json::set_member(
                    &mut value,
                    "content_encoding".to_owned(),
                    json::string("utf8".to_owned()),
                );
            },
            None => {
                json::set_member(
                    &mut value,
                    "content".to_owned(),
                    json::string(base64_text::encode(message.content.as_slice())),
                );
                json::set_member(
                    &mut value,
                    "content_encoding".to_owned(),
                    json::string("base64".to_owned()),
                );
            },
        }
        json::set_member(
            &mut value,
            "transactional".to_owned(),
            json::boolean(message.transactional),
        );
        json::set_member(
            &mut value,
            "lsn".to_owned(),
            json::string(lsn::format_pg_lsn(message.lsn)),
        );
        let one = Event {
            before: BeforeImage::Unavailable,
            after: Some(value),
            op: Operation::Message,
            source: self.source_meta(frame),
            ts: if self.current_commit_ts == 0 {
                now
            } else {
                self.current_commit_ts
            },
            schema: None,
            table: text::join2(message.prefix.as_str(), "__messages"),
            primary_key: None,
            snapshot: None,
            transaction: self.tx_meta(),
            envelope_version: EVENT_ENVELOPE_VERSION,
            schema_id: None,
            unavailable_columns: Vec::new(),
        };
        proof {
            assert(one@.unavailable_columns =~= Seq::<Seq<char>>::empty());
        }
        one
    }

    fn build_relation_schema_change_event(
        &self,
        seen: &PgRelation,
        frame: u64,
        first_sight: bool,
        now: u64,
    ) -> (one: Event)
        ensures
            one@ == shape_event(
                self.settings(),
                self.progress(),
                seen@,
                frame,
                first_sight,
                now,
            ),
    {
        let ts = if self.current_commit_ts == 0 {
            now
        } else {
            self.current_commit_ts
        };
        let place = if frame == 0 {
            self.stream.lsn_position
        } else {
            frame
        };
        let captured = CapturedDdl {
            ddl_type: if first_sight {
                schema::DDL_TYPE_READ_SCHEMA.to_owned()
            } else {
                "ALTER_TABLE".to_owned()
            },
            schema: seen.namespace.clone(),
            table: seen.name.clone(),
            statement: if first_sight {
                schema::observed_statement(
                    seen.namespace.as_str(),
                    seen.name.as_str(),
                    "pgoutput RELATION",
                )
            } else {
                text::join5(
                    "ALTER TABLE ",
                    seen.namespace.as_str(),
                    ".",
                    seen.name.as_str(),
                    " /* derived from pgoutput RELATION metadata */",
                )
            },
            result_schema: Some(
                relation::relation_to_table_schema(
                    &self.catalog_primary_keys,
                    &self.catalog_columns,
                    seen,
                ),
            ),
            ts,
        };
        let mut one = captured.to_event(self.source_name.as_str(), lsn::format_pg_lsn(place), ts);
        one.transaction = self.tx_meta();
        one
    }

    fn hold(&mut self, one: Event)
        ensures
            final(self).same_otherwise(*old(self)),
            final(self).progress() == held(old(self).progress(), one@),
    {
        let ghost before = event::event_views(self.partial_tx_events@);
        let ghost seen = one@;
        self.partial_tx_events.push(one);
        proof {
            assert(event::event_views(self.partial_tx_events@) =~= before.push(seen));
        }
    }

    fn take(&mut self, one: Event, hold: bool, events: &mut Vec<Event>)
        ensures
            final(self).same_otherwise(*old(self)),
            (final(self).progress(), event::event_views(final(events)@)) == ({
                let (next, more) = taken(old(self).progress(), one@, hold);
                (next, event::event_views(old(events)@) + more)
            }),
    {
        let ghost before = event::event_views(events@);
        let ghost seen = one@;
        if hold {
            self.hold(one);
            proof {
                assert(before + Seq::<EventView>::empty() =~= before);
            }
        } else {
            self.events_polled = self.events_polled.saturating_add(1);
            events.push(one);
            proof {
                assert(event::event_views(events@) =~= before.push(seen));
                assert(before + seq![seen] =~= before.push(seen));
            }
        }
    }

    fn take_begin(&mut self, begin: PgBegin)
        ensures
            final(self).same_otherwise(*old(self)),
            final(self).progress() == begun(old(self).progress(), begin),
    {
        self.current_xid = Some(begin.xid);
        self.current_commit_ts = lsn::pg_timestamp_to_millis(begin.commit_timestamp_us);
        self.partial_tx_events = Vec::new();
        proof {
            assert(event::event_views(self.partial_tx_events@) =~= Seq::empty());
        }
    }

    fn remember_end(&mut self, xid: u32, end_lsn: u64)
        ensures
            final(self).same_otherwise(*old(self)),
            final(self).progress() == (StreamView {
                ends: latest_ends(old(self).progress().ends.push((xid as u64, end_lsn))),
                ..old(self).progress()
            }),
    {
        self.committed_tx_ends.push_back((xid as u64, end_lsn));
        let ghost all = self.committed_tx_ends@;
        proof {
            assert(all.skip(0) =~= all);
        }
        let ghost mut gone: int = 0;
        while self.committed_tx_ends.len() > MAX_TRACKED_TX_ENDS
            invariant
                0 <= gone <= all.len(),
                self.committed_tx_ends@ == all.skip(gone),
                gone > 0 ==> self.committed_tx_ends@.len() >= MAX_TRACKED_TX_ENDS,
                self.same_otherwise(*old(self)),
                self.progress() == (StreamView {
                    ends: self.committed_tx_ends@,
                    ..old(self).progress()
                }),
            decreases self.committed_tx_ends@.len(),
        {
            let _ = self.committed_tx_ends.pop_front();
            proof {
                gone = gone + 1;
                assert(self.committed_tx_ends@ =~= all.skip(gone));
            }
        }
        proof {
            assert(self.committed_tx_ends@ =~= latest_ends(all));
        }
    }

    fn take_commit(&mut self, commit: PgCommit, events: &mut Vec<Event>)
        ensures
            final(self).same_otherwise(*old(self)),
            final(self).progress() == committed(old(self).progress(), commit),
            event::event_views(final(events)@) == event::event_views(old(events)@)
                + commit_events(old(self).progress()),
    {
        let ghost start = self.progress();
        self.stream.lsn_position = commit.end_lsn;
        match self.current_xid {
            Some(xid) => {
                self.remember_end(xid, commit.end_lsn);
            },
            None => {},
        }
        let total = self.partial_tx_events.len() as u32;
        let ghost whole = commit_events(start);
        let mut i: usize = 0;
        let ghost partial = start.partial;
        while i < self.partial_tx_events.len()
            invariant
                i <= self.partial_tx_events@.len(),
                self.partial_tx_events@.len() == partial.len(),
                total == partial.len() as u32,
                whole == partial.map_values(|one: EventView| totalled(one, total)),
                self.same_otherwise(*old(self)),
                self.progress() == (StreamView {
                    position: commit.end_lsn,
                    ends: committed(start, commit).ends,
                    partial: event::event_views(self.partial_tx_events@),
                    ..start
                }),
                forall|k: int|
                    0 <= k < i ==> (#[trigger] self.partial_tx_events@[k])@ == whole[k],
                forall|k: int|
                    i <= k < partial.len() ==> (#[trigger] self.partial_tx_events@[k])@
                        == partial[k],
            decreases self.partial_tx_events.len() - i,
        {
            let one = &mut self.partial_tx_events[i];
            match &mut one.transaction {
                Some(tx) => {
                    tx.total_events = Some(total);
                },
                None => {},
            }
            i = i + 1;
        }
        proof {
            assert(event::event_views(self.partial_tx_events@) =~= whole);
        }
        self.events_polled = self.events_polled.saturating_add(total as u64);
        let ghost lead = event::event_views(events@);
        let ghost tail = event::event_views(self.partial_tx_events@);
        events.append(&mut self.partial_tx_events);
        proof {
            assert(event::event_views(events@) =~= lead + tail);
            assert(event::event_views(self.partial_tx_events@) =~= Seq::empty());
        }
        self.current_xid = None;
        self.current_commit_ts = 0;
    }

    fn note_fault(&mut self, seen: &PgRelation)
        ensures
            final(self).same_otherwise(*old(self)),
            final(self).progress() == (StreamView {
                faults: described(old(self).settings(), old(self).progress(), seen@).faults,
                ..old(self).progress()
            }),
    {
        match relation::find_identity_fault(&self.catalog_primary_keys, seen) {
            Some(fault) => {
                let mut known = false;
                let mut i: usize = 0;
                while i < self.identity_faults.len()
                    invariant
                        i <= self.identity_faults@.len(),
                        known == (exists|k: int|
                            0 <= k < i && (#[trigger] self.identity_faults@[k]).0 == seen.oid),
                    decreases self.identity_faults.len() - i,
                {
                    if self.identity_faults[i].0 == seen.oid {
                        known = true;
                    }
                    i = i + 1;
                }
                if !known {
                    self.identity_faults.push((seen.oid, fault));
                }
            },
            None => {},
        }
    }

    fn take_relation(&mut self, seen: PgRelation, frame: u64, now: u64, events: &mut Vec<Event>)
        ensures
            final(self).same_otherwise(*old(self)),
            step(
                old(self).settings(),
                old(self).progress(),
                frame,
                MessageView::Relation(seen@),
                now,
            ) matches Some((next, more)) && final(self).progress() == next && event::event_views(
                final(events)@,
            ) == event::event_views(old(events)@) + more,
    {
        let ghost start = self.progress();
        let ghost settings = self.settings();
        let ghost view = seen@;
        let ghost lead = event::event_views(events@);
        let known = self.relation_map.contains_key(&seen.oid);
        let changed = match self.relation_map.get(&seen.oid) {
            Some(existing) => !relation::same_relation(existing, &seen),
            None => false,
        };
        self.note_fault(&seen);
        let shape = relation::relation_to_table_schema(
            &self.catalog_primary_keys,
            &self.catalog_columns,
            &seen,
        );
        let id = schema::schema_id(&shape);
        let ghost id_text = id@;
        let ghost ids = self.relation_schema_ids@;
        self.relation_schema_ids.insert(seen.oid, id);
        proof {
            assert(id_views(ids.insert(view.oid, id)) =~= id_views(ids).insert(view.oid, id_text));
        }
        let emit = (!known || changed) && filter::table_is_allowed(
            Some(seen.namespace.as_str()),
            seen.name.as_str(),
            self.table_include_list.as_slice(),
            self.table_exclude_list.as_slice(),
        );
        let event = if emit {
            Some(self.build_relation_schema_change_event(&seen, frame, !known, now))
        } else {
            None
        };
        let ghost relations = self.relation_map@;
        self.relation_map.insert(seen.oid, seen);
        proof {
            assert(relation_views(relations.insert(view.oid, seen)) =~= relation_views(
                relations,
            ).insert(view.oid, view));
            assert(self.progress() == described(settings, start, view));
        }
        match event {
            Some(one) => {
                let hold = self.current_xid.is_some();
                self.take(one, hold, events);
            },
            None => {
                proof {
                    assert(lead + Seq::<EventView>::empty() =~= lead);
                }
            },
        }
    }

    fn take_unknown(&mut self, tag: u8) -> (passed: Result<(), Error>)
        ensures
            final(self).same_otherwise(*old(self)),
            match passed {
                Ok(_) => !later_protocol(tag) && final(self).progress() == (StreamView {
                    unknown: if old(self).progress().unknown.contains(tag) {
                        old(self).progress().unknown
                    } else {
                        old(self).progress().unknown.push(tag)
                    },
                    ..old(self).progress()
                }),
                Err(error) => later_protocol(tag) && error is SourceError && error.text()
                    == later_protocol_text(tag) && final(self).progress() == old(self).progress(),
            },
    {
        if tag == 0x53 || tag == 0x45 || tag == 0x63 || tag == 0x41 || tag == 0x70 || tag == 0x62
            || tag == 0x50 || tag == 0x4b || tag == 0x72 {
            return Err(
                Error::SourceError(
                    text::join5(
                        "postgres sent pgoutput message '",
                        tag_text(tag).as_str(),
                        "' (0x",
                        text::render_hex_pair(tag).as_str(),
                        LATER_PROTOCOL_REMEDY,
                    ),
                ),
            );
        }
        let mut known = false;
        let mut i: usize = 0;
        while i < self.unknown_tags.len()
            invariant
                i <= self.unknown_tags@.len(),
                known == (exists|k: int| 0 <= k < i && self.unknown_tags@[k] == tag),
            decreases self.unknown_tags.len() - i,
        {
            if self.unknown_tags[i] == tag {
                known = true;
            }
            i = i + 1;
        }
        if !known {
            self.unknown_tags.push(tag);
        }
        Ok(())
    }

    /// Processes one message; see [`step`].
    fn process_message(
        &mut self,
        frame: u64,
        message: PgOutputMessage,
        now: u64,
        events: &mut Vec<Event>,
    ) -> (passed: Result<(), Error>)
        requires
            message matches PgOutputMessage::LogicalMessage(found) ==> found.content@.len()
                <= 0x7fff_ffff,
        ensures
            final(self).same_otherwise(*old(self)),
            match passed {
                Ok(_) => step(
                    old(self).settings(),
                    old(self).progress(),
                    frame,
                    message@,
                    now,
                ) matches Some((next, more)) && final(self).progress() == next
                    && event::event_views(final(events)@) == event::event_views(old(events)@)
                    + more,
                Err(error) => error is SourceError && error.text() == step_fault(
                    old(self).progress(),
                    message@,
                ) && step(
                    old(self).settings(),
                    old(self).progress(),
                    frame,
                    message@,
                    now,
                ) is None && final(self).progress() == old(self).progress() && final(events)@
                    == old(events)@,
            },
    {
        let ghost lead = event::event_views(events@);
        proof {
            assert(lead + Seq::<EventView>::empty() =~= lead);
        }
        match message {
            PgOutputMessage::Begin(begin) => {
                self.take_begin(begin);
                Ok(())
            },
            PgOutputMessage::Commit(commit) => {
                self.take_commit(commit, events);
                Ok(())
            },
            PgOutputMessage::Relation(seen) => {
                self.take_relation(seen, frame, now, events);
                Ok(())
            },
            PgOutputMessage::LogicalMessage(message) => {
                let table = text::join2(message.prefix.as_str(), "__messages");
                if filter::table_is_allowed(
                    None,
                    table.as_str(),
                    self.table_include_list.as_slice(),
                    self.table_exclude_list.as_slice(),
                ) {
                    let one = self.build_logical_message_event(&message, frame, now);
                    let hold = message.transactional && self.current_xid.is_some();
                    self.take(one, hold, events);
                }
                Ok(())
            },
            PgOutputMessage::Insert(insert) => {
                if self.is_captured(insert.relation_oid) {
                    match self.build_insert_event(&insert, frame) {
                        Ok(one) => {
                            self.hold(one);
                        },
                        Err(error) => {
                            return Err(error);
                        },
                    }
                }
                Ok(())
            },
            PgOutputMessage::Update(update) => {
                if self.is_captured(update.relation_oid) {
                    match self.build_update_event(&update, frame) {
                        Ok(one) => {
                            self.hold(one);
                        },
                        Err(error) => {
                            return Err(error);
                        },
                    }
                }
                Ok(())
            },
            PgOutputMessage::Delete(delete) => {
                if self.is_captured(delete.relation_oid) {
                    match self.build_delete_event(&delete, frame) {
                        Ok(one) => {
                            self.hold(one);
                        },
                        Err(error) => {
                            return Err(error);
                        },
                    }
                }
                Ok(())
            },
            PgOutputMessage::Truncate(truncate) => {
                let mut more = self.build_truncate_events(&truncate, frame);
                let ghost before = event::event_views(self.partial_tx_events@);
                let ghost tail = event::event_views(more@);
                self.partial_tx_events.append(&mut more);
                proof {
                    assert(event::event_views(self.partial_tx_events@) =~= before + tail);
                }
                Ok(())
            },
            PgOutputMessage::Unknown(tag) => self.take_unknown(tag),
        }
    }

    /// Processes frames in order, and returns the events that they deliver; see [`run`]. A frame
    /// that cannot be gone on from stops the rest, and what was processed before it stays so.
    pub fn process_messages(&mut self, frames: Vec<PgOutputXLogData>, now: u64) -> (events: Result<
        Vec<Event>,
        Error,
    >)
        ensures
            final(self).same_otherwise(*old(self)),
            ({
                let outcome = run(old(self).settings(), old(self).progress(), frames@, now);
                &&& final(self).progress() == outcome.0
                &&& match events {
                    Ok(events) => outcome.2 && event::event_views(events@) == outcome.1,
                    Err(error) => !outcome.2 && error is SourceError && error.text() == run_fault(
                        old(self).settings(),
                        old(self).progress(),
                        frames@,
                        now,
                    ),
                }
            }),
    {
        let ghost settings = self.settings();
        let ghost start = self.progress();
        let ghost all = frames@;
        let mut events: Vec<Event> = Vec::new();
        let mut i: usize = 0;
        proof {
            assert(all.take(0) =~= Seq::empty());
            assert(event::event_views(events@) =~= Seq::empty());
        }
        while i < frames.len()
            invariant
                i <= all.len(),
                all == frames@,
                settings == old(self).settings(),
                start == old(self).progress(),
                self.same_otherwise(*old(self)),
                run(settings, start, all.take(i as int), now) == (
                    self.progress(),
                    event::event_views(events@),
                    true,
                ),
            decreases frames.len() - i,
        {
            proof {
                assert(all.take(i + 1).drop_last() =~= all.take(i as int));
                assert(all.take(i + 1).last() == all[i as int]);
            }
            let passed = match decoder::decode_pgoutput_message(frames[i].data.as_slice()) {
                Ok(message) => {
                    self.process_message(frames[i].lsn, message, now, &mut events)
                },
                Err(error) => Err(error),
            };
            match passed {
                Ok(_) => {},
                Err(error) => {
                    proof {
                        assert(!run(settings, start, all.take(i + 1), now).2);
                        lemma_run_stops(settings, start, all, i + 1, now);
                    }
                    return Err(error);
                },
            }
            i = i + 1;
        }
        proof {
            assert(all.take(i as int) =~= all);
        }
        Ok(events)
    }
}

proof fn lemma_run_stops(
    settings: StreamSettings,
    state: StreamView,
    frames: Seq<PgOutputXLogData>,
    count: int,
    now: u64,
)
    requires
        0 <= count <= frames.len(),
        !run(settings, state, frames.take(count), now).2,
    ensures
        run(settings, state, frames, now) == run(settings, state, frames.take(count), now),
        run_fault(settings, state, frames, now) == run_fault(
            settings,
            state,
            frames.take(count),
            now,
        ),
    decreases frames.len() - count,
{
    if count == frames.len() {
        assert(frames.take(count) =~= frames);
    } else {
        assert(frames.take(count + 1).drop_last() =~= frames.take(count));
        lemma_run_stops(settings, state, frames, count + 1, now);
    }
}

} // verus!
