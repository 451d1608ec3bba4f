//! What the messages and events of the binlog stream say: each kind of binlog event in terms of
//! what the log holds and of what the consumer is handed.
use vstd::prelude::*;
use crate::ddl;
use crate::error::Error;
use crate::event;
use crate::event::{BeforeView, EventView, Operation, TransactionMetadata, EVENT_ENVELOPE_VERSION};
use crate::filter;
use crate::json;
use crate::mysql::binlog;
use crate::mysql::binlog::{BinlogDecoder, BinlogEvent, DecoderView, RowsKind};
use crate::mysql::gtid;
use crate::mysql::parser;
use crate::mysql::reader;
use crate::mysql::reader::EventBody;
use crate::mysql::stream;
use crate::mysql::stream::{
    MessageView, MysqlBinlogMessage, MysqlRowChange, StreamSettings, StreamView,
};
use crate::schema;
use crate::schema::DdlView;
use crate::schema_laws;
use crate::text;

verus! {

// Messages

/// Whether two row changes say the same, field by field.
pub open spec fn same_change(one: MysqlRowChange, other: MysqlRowChange) -> bool {
    &&& text::text_option(one.schema) == text::text_option(other.schema)
    &&& one.table@ == other.table@
    &&& event::key_names(one.primary_key) == event::key_names(other.primary_key)
    &&& json::json_option(one.before) == json::json_option(other.before)
    &&& json::json_option(one.after) == json::json_option(other.after)
}

/// Whether a message is of a rows event's kind, and says what one of its changes says.
pub open spec fn keeps_kind(
    kind: RowsKind,
    change: MysqlRowChange,
    message: MysqlBinlogMessage,
) -> bool {
    match kind {
        RowsKind::Write => message matches MysqlBinlogMessage::WriteRows(held) && same_change(
            held,
            change,
        ),
        RowsKind::Update => message matches MysqlBinlogMessage::UpdateRows(held) && same_change(
            held,
            change,
        ),
        RowsKind::Delete => message matches MysqlBinlogMessage::DeleteRows(held) && same_change(
            held,
            change,
        ),
    }
}

/// A rows event gives one message for each of its changes, in order, and each keeps the event's
/// kind: writes stay writes, updates updates, and deletes deletes. Where no transaction is open the
/// start of one comes first.
pub proof fn rows_keep_their_kind(
    before: DecoderView,
    kind: RowsKind,
    changes: Vec<MysqlRowChange>,
    timestamp_ms: u64,
    after: DecoderView,
    messages: Result<Vec<MysqlBinlogMessage>, Error>,
)
    requires
        binlog::classified(
            before,
            BinlogEvent::Rows { kind, changes: Ok(changes) },
            timestamp_ms,
            after,
            messages,
        ),
    ensures
        after == (DecoderView { tx: after.tx, next_tx: after.next_tx, ..before }),
        after.tx is Some,
        before.tx is Some ==> after == before,
        messages matches Ok(out) && ({
            let lead: int = if before.tx is None {
                1
            } else {
                0
            };
            &&& out@.len() == changes@.len() + lead
            &&& before.tx is None ==> out@[0] == (MysqlBinlogMessage::Begin {
                tx_id: after.tx->0,
                timestamp_ms,
            })
            &&& forall|i: int|
                0 <= i < changes@.len() ==> keeps_kind(
                    kind,
                    #[trigger] changes@[i],
                    out@[lead + i],
                )
        }),
{
    let out = messages->Ok_0;
    let lead: int = if before.tx is None {
        1
    } else {
        0
    };
    let views = stream::message_views(out@);
    let rows = binlog::row_messages(kind, changes@);
    assert(views.len() == out@.len());
    assert(rows.len() == changes@.len());
    if before.tx is None {
        assert(views[0] == out@[0]@);
    }
    assert forall|i: int| 0 <= i < changes@.len() implies keeps_kind(
        kind,
        #[trigger] changes@[i],
        out@[lead + i],
    ) by {
        assert(views[lead + i] == out@[lead + i]@);
        assert(views[lead + i] == rows[i]);
    }
}

/// A rows event that could not be decoded fails with its own error.
pub proof fn broken_rows_fail(
    before: DecoderView,
    kind: RowsKind,
    error: Error,
    timestamp_ms: u64,
    after: DecoderView,
    messages: Result<Vec<MysqlBinlogMessage>, Error>,
)
    requires
        binlog::classified(
            before,
            BinlogEvent::Rows { kind, changes: Err(error) },
            timestamp_ms,
            after,
            messages,
        ),
    ensures
        messages == Err::<Vec<MysqlBinlogMessage>, Error>(error),
{
}

/// A commit gives one message: at the current place in the log, with the transaction's GTID, and
/// with the number of the open transaction, or the log's where none is open. Nothing of the
/// transaction is left behind.
pub proof fn commit_ends_the_transaction(
    before: DecoderView,
    xid: u64,
    timestamp_ms: u64,
    after: DecoderView,
    messages: Result<Vec<MysqlBinlogMessage>, Error>,
)
    requires
        binlog::classified(before, BinlogEvent::Xid { xid }, timestamp_ms, after, messages),
    ensures
        after.tx is None,
        after.gtid is None,
        after.file == before.file,
        after.position == before.position,
        messages matches Ok(out) && out@.len() == 1 && (out@[0] matches MysqlBinlogMessage::Xid {
            tx_id,
            timestamp_ms: at,
            binlog_file,
            binlog_pos,
            gtid,
        } && at == timestamp_ms && binlog_file@ == before.file && binlog_pos == before.position
            && text::text_option(gtid) == before.gtid && (before.tx matches Some(open) ==> tx_id
            == open) && (before.tx is None && xid != 0 ==> tx_id == xid)),
{
    let out = messages->Ok_0;
    let views = stream::message_views(out@);
    assert(views.len() == out@.len());
    assert(views[0] == out@[0]@);
}

/// A rotation gives one message, with the next file and place, and the decoder goes on there.
pub proof fn rotation_moves_to_the_next_file(
    before: DecoderView,
    name: String,
    position: u64,
    timestamp_ms: u64,
    after: DecoderView,
    messages: Result<Vec<MysqlBinlogMessage>, Error>,
)
    requires
        binlog::classified(
            before,
            BinlogEvent::Rotate { name, position },
            timestamp_ms,
            after,
            messages,
        ),
        messages is Ok,
    ensures
        after == (DecoderView { file: after.file, position: position as u32, ..before }),
        position <= u32::MAX,
        after.file.len() > 0 && after.file == name@.take(after.file.len() as int),
        messages matches Ok(out) && out@.len() == 1 && (out@[0] matches MysqlBinlogMessage::Rotate {
            binlog_file,
            binlog_pos,
        } && binlog_file@ == after.file && binlog_pos == position),
{
    let out = messages->Ok_0;
    let views = stream::message_views(out@);
    assert(views.len() == out@.len());
    assert(views[0] == out@[0]@);
    let dot = parser::last_numbered_dot(name@, name@.len() - 1);
    lemma_dot(name@, name@.len() - 1);
    lemma_digits(name@, dot + 1);
    assert(after.file =~= name@.take(after.file.len() as int));
}

proof fn lemma_dot(name: Seq<char>, from: int)
    ensures
        parser::last_numbered_dot(name, from) <= from || from < -1,
        parser::last_numbered_dot(name, from) >= 0 ==> parser::last_numbered_dot(name, from) + 1
            < name.len(),
    decreases from + 1,
{
    if from >= 0 {
        lemma_dot(name, from - 1);
    }
}

proof fn lemma_digits(name: Seq<char>, from: int)
    requires
        0 <= from <= name.len(),
    ensures
        from <= parser::digits_end(name, from) <= name.len(),
    decreases name.len() - from,
{
    if from < name.len() && '0' <= name[from] <= '9' {
        lemma_digits(name, from + 1);
    }
}

/// A GTID event gives one message, and its GTID goes to the transaction that follows.
pub proof fn gtid_goes_to_its_transaction(
    before: DecoderView,
    sid: [u8; 16],
    gno: u64,
    timestamp_ms: u64,
    after: DecoderView,
    messages: Result<Vec<MysqlBinlogMessage>, Error>,
)
    requires
        binlog::classified(before, BinlogEvent::Gtid { sid, gno }, timestamp_ms, after, messages),
    ensures
        after == (DecoderView { gtid: after.gtid, ..before }),
        messages matches Ok(out) && out@.len() == 1 && (out@[0] matches MysqlBinlogMessage::Gtid {
            gtid,
        } && after.gtid == Some(gtid@)),
{
    let out = messages->Ok_0;
    let views = stream::message_views(out@);
    assert(views.len() == out@.len());
    assert(views[0] == out@[0]@);
}

/// A heartbeat gives a heartbeat, and an event without use gives nothing; neither changes anything.
pub proof fn idle_events_change_nothing(
    before: DecoderView,
    beats: bool,
    timestamp_ms: u64,
    after: DecoderView,
    messages: Result<Vec<MysqlBinlogMessage>, Error>,
)
    requires
        binlog::classified(
            before,
            if beats {
                BinlogEvent::Heartbeat
            } else {
                BinlogEvent::Other
            },
            timestamp_ms,
            after,
            messages,
        ),
    ensures
        after == before,
        messages matches Ok(out) && (if beats {
            out@.len() == 1 && out@[0] is Heartbeat
        } else {
            out@.len() == 0
        }),
{
    let out = messages->Ok_0;
    let views = stream::message_views(out@);
    assert(views.len() == out@.len());
    if beats {
        assert(views[0] == out@[0]@);
    }
}

/// A statement gives at most a commit and a message of its own: a transaction's start for `BEGIN`,
/// the statement for one that changes a table's shape, and the table for one that empties it, which
/// ends the open transaction first. Each of them stands at the current place in the log.
pub proof fn statement_gives_its_own_message(
    before: DecoderView,
    statement: String,
    timestamp_ms: u64,
    after: DecoderView,
    messages: Result<Vec<MysqlBinlogMessage>, Error>,
)
    requires
        binlog::classified(
            before,
            BinlogEvent::Query { statement },
            timestamp_ms,
            after,
            messages,
        ),
    ensures
        after.file == before.file,
        after.position == before.position,
        messages matches Ok(out) && ({
            let begins = text::folded(text::trimmed(statement@)) == text::folded("BEGIN"@);
            let shape = ddl::ddl_target(statement@);
            let emptied = ddl::truncate_target(statement@);
            if begins {
                &&& out@.len() == 1
                &&& after.tx is Some
                &&& before.tx is Some ==> after == before
                &&& out@[0] == (MysqlBinlogMessage::Begin { tx_id: after.tx->0, timestamp_ms })
            } else if let Some((kind, schema, table)) = shape {
                &&& out@.len() == 1
                &&& after == before
                &&& out@[0] matches MysqlBinlogMessage::Ddl {
                    captured,
                    timestamp_ms: at,
                    binlog_file,
                    binlog_pos,
                } && captured.ddl_type@ == kind && captured.schema@ == schema && captured.table@
                    == table && captured.statement@ == statement@ && captured.ts == timestamp_ms
                    && captured.result_schema is None && at == timestamp_ms && binlog_file@
                    == before.file && binlog_pos == before.position
            } else if let Some((schema, table)) = emptied {
                &&& out@.len() == (if before.tx is Some {
                    2nat
                } else {
                    1nat
                })
                &&& after.tx is None
                &&& before.tx matches Some(open) ==> (out@[0] matches MysqlBinlogMessage::Xid {
                    tx_id,
                    timestamp_ms: at,
                    binlog_file,
                    binlog_pos,
                    gtid,
                } && tx_id == open && at == timestamp_ms && binlog_file@ == before.file
                    && binlog_pos == before.position && text::text_option(gtid) == before.gtid)
                &&& out@.last() matches MysqlBinlogMessage::Truncate {
                    schema: said_schema,
                    table: said_table,
                    timestamp_ms: at,
                    binlog_file,
                    binlog_pos,
                } && text::text_option(said_schema) == schema && said_table@ == table && at
                    == timestamp_ms && binlog_file@ == before.file && binlog_pos == before.position
            } else {
                out@.len() == 0 && after == before
            }
        }),
{
    let out = messages->Ok_0;
    let views = stream::message_views(out@);
    assert(views.len() == out@.len());
    if views.len() > 0 {
        assert(views[0] == out@[0]@);
    }
    if views.len() > 1 {
        assert(views[1] == out@[1]@);
    }
}

// Events

/// Whether an event shows a row change: its images as they are, its table, its key, and its
/// transaction with its own place in it.
pub open spec fn shows_change(
    settings: StreamSettings,
    state: StreamView,
    op: Operation,
    change: MysqlRowChange,
    one: EventView,
) -> bool {
    &&& one.op == op
    &&& one.before == (match change.before {
        Some(row) => BeforeView::Full { row: json::json(row), unavailable_columns: Seq::empty() },
        None => BeforeView::Unavailable,
    })
    &&& one.after == (match change.after {
        Some(row) => Some(json::json(row)),
        None => None,
    })
    &&& one.schema == (match change.schema {
        Some(schema) => Some(schema@),
        None => None,
    })
    &&& one.table == change.table@
    &&& one.primary_key == (match change.primary_key {
        Some(names) => Some(text::texts(names@)),
        None => None,
    })
    &&& one.source.source_name == settings.source_name
    &&& one.ts == state.commit_ts
    &&& one.snapshot is None
    &&& one.schema_id is None
    &&& one.unavailable_columns.len() == 0
    &&& one.envelope_version == EVENT_ENVELOPE_VERSION
    &&& one.transaction is Some == state.tx is Some
    &&& one.transaction matches Some(tag) ==> Some(tag.tx_id) == state.tx
}

/// The operation of a row message.
pub open spec fn row_operation(message: MysqlBinlogMessage) -> Operation {
    match message {
        MysqlBinlogMessage::WriteRows(_) => Operation::Insert,
        MysqlBinlogMessage::UpdateRows(_) => Operation::Update,
        _ => Operation::Delete,
    }
}

/// A row message of a captured table becomes one event, which awaits its commit: an insert of a
/// write, an update of an update and a delete of a delete, and it shows the change. The table's
/// announcement may come before it.
pub proof fn row_message_becomes_its_event(
    settings: StreamSettings,
    state: StreamView,
    message: MysqlBinlogMessage,
    change: MysqlRowChange,
    now: u64,
)
    requires
        message == MysqlBinlogMessage::WriteRows(change) || message
            == MysqlBinlogMessage::UpdateRows(change) || message == MysqlBinlogMessage::DeleteRows(
            change,
        ),
        filter::allowed(
            text::text_option(change.schema),
            change.table@,
            settings.include_list,
            settings.exclude_list,
        ),
    ensures
        ({
            let (next, events) = stream::step(settings, state, message@, now);
            let count = next.partial.len() - state.partial.len();
            &&& events.len() == 0
            &&& next == (StreamView { partial: next.partial, announced: next.announced, ..state })
            &&& 1 <= count <= 2
            &&& next.partial.take(state.partial.len() as int) == state.partial
            &&& count == 2 ==> next.partial[state.partial.len() as int].op
                == Operation::SchemaChange
            &&& shows_change(settings, state, row_operation(message), change, next.partial.last())
            &&& next.partial.last().transaction matches Some(tag) ==> tag.event_index == (
            next.partial.len() - 1) as u32
        }),
{
    let (next, events) = stream::step(settings, state, message@, now);
    assert(next.partial.take(state.partial.len() as int) =~= state.partial);
}

/// A commit delivers the events of its transaction, in order and unchanged but for the commit's
/// time, the place to resume from, the transaction's size and each event's own place in it.
pub proof fn commit_changes_only_the_stamp(
    settings: StreamSettings,
    state: StreamView,
    tx_id: u64,
    timestamp_ms: u64,
    binlog_file: Seq<char>,
    binlog_pos: u32,
    gtid: Option<Seq<char>>,
    now: u64,
)
    ensures
        ({
            let (next, events) = stream::step(
                settings,
                state,
                MessageView::Xid { tx_id, timestamp_ms, binlog_file, binlog_pos, gtid },
                now,
            );
            &&& events.len() == state.partial.len()
            &&& next.partial.len() == 0
            &&& next.tx is None
            &&& next.commit_ts == 0
            &&& next.announced == state.announced
            &&& gtid is None ==> next.gtid == state.gtid
            &&& forall|i: int|
                0 <= i < events.len() ==> {
                    let held = state.partial[i];
                    &&& (#[trigger] events[i]) == (EventView {
                        transaction: events[i].transaction,
                        ts: timestamp_ms,
                        source: events[i].source,
                        ..held
                    })
                    &&& events[i].source.source_name == held.source.source_name
                    &&& events[i].source.timestamp == timestamp_ms
                    &&& events[i].transaction == (match held.transaction {
                        Some(tag) => Some(
                            TransactionMetadata {
                                tx_id: tag.tx_id,
                                total_events: Some(state.partial.len() as u32),
                                event_index: i as u32,
                            },
                        ),
                        None => None,
                    })
                }
        }),
{
}

/// A message that starts a transaction starts it empty, with its number and its time.
pub proof fn begin_starts_empty(
    settings: StreamSettings,
    state: StreamView,
    tx_id: u64,
    timestamp_ms: u64,
    now: u64,
)
    ensures
        ({
            let (next, events) = stream::step(
                settings,
                state,
                MessageView::Begin { tx_id, timestamp_ms },
                now,
            );
            &&& events.len() == 0
            &&& next.tx == Some(tx_id)
            &&& next.commit_ts == timestamp_ms
            &&& next.partial.len() == 0
            &&& next.file == state.file && next.position == state.position && next.gtid
                == state.gtid && next.announced == state.announced
        }),
{
}

/// A statement that changes or empties a captured table is delivered at once, after whatever the
/// open transaction held, and moves the stream to its place.
pub proof fn statement_is_delivered_last(
    settings: StreamSettings,
    state: StreamView,
    schema: Option<Seq<char>>,
    table: Seq<char>,
    timestamp_ms: u64,
    binlog_file: Seq<char>,
    binlog_pos: u32,
    now: u64,
)
    requires
        filter::allowed(schema, table, settings.include_list, settings.exclude_list),
    ensures
        ({
            let (next, events) = stream::step(
                settings,
                state,
                MessageView::Truncate { schema, table, timestamp_ms, binlog_file, binlog_pos },
                now,
            );
            let one = events.last();
            &&& events.len() == 1 + (if state.tx is Some {
                state.partial.len()
            } else {
                0
            })
            &&& forall|i: int|
                0 <= i < events.len() - 1 ==> {
                    &&& (#[trigger] events[i]).op == state.partial[i].op
                    &&& events[i].before == state.partial[i].before
                    &&& events[i].after == state.partial[i].after
                    &&& events[i].table == state.partial[i].table
                    &&& events[i].schema == state.partial[i].schema
                    &&& events[i].primary_key == state.partial[i].primary_key
                }
            &&& one.op == Operation::Truncate
            &&& one.before is Unavailable
            &&& one.after is None
            &&& one.schema == schema
            &&& one.table == table
            &&& one.primary_key is None
            &&& one.transaction is None
            &&& one.ts == timestamp_ms
            &&& one.source.source_name == settings.source_name
            &&& one.source.timestamp == timestamp_ms
            &&& next.partial.len() == 0
            &&& next.file == binlog_file && next.position == binlog_pos && next.gtid == state.gtid
        }),
{
}

/// A schema statement on a captured table is delivered at once, after whatever the open transaction
/// held, and moves the stream to its place.
pub proof fn schema_statement_is_delivered_last(
    settings: StreamSettings,
    state: StreamView,
    captured: DdlView,
    timestamp_ms: u64,
    binlog_file: Seq<char>,
    binlog_pos: u32,
    now: u64,
)
    requires
        filter::allowed(
            Some(captured.schema),
            captured.table,
            settings.include_list,
            settings.exclude_list,
        ),
    ensures
        ({
            let (next, events) = stream::step(
                settings,
                state,
                MessageView::Ddl { captured, timestamp_ms, binlog_file, binlog_pos },
                now,
            );
            let one = events.last();
            &&& events.len() == 1 + (if state.tx is Some {
                state.partial.len()
            } else {
                0
            })
            &&& one.op == Operation::SchemaChange
            &&& one.before is Unavailable
            &&& one.schema == Some(captured.schema)
            &&& one.table == captured.table + "__ddl_events"@
            &&& one.primary_key is None
            &&& one.transaction is None
            &&& one.ts == timestamp_ms
            &&& one.source.source_name == settings.source_name
            &&& next.partial.len() == 0
            &&& next.file == binlog_file && next.position == binlog_pos && next.gtid == state.gtid
        }),
{
}

/// The operation of a rows event's kind, in the consumer's words.
pub open spec fn told_operation(kind: RowsKind) -> Operation {
    match kind {
        RowsKind::Write => Operation::Insert,
        RowsKind::Update => Operation::Update,
        RowsKind::Delete => Operation::Delete,
    }
}

/// From the log to the consumer: the rows of a rows event in an open transaction, of tables that
/// are captured and announced, are delivered by the commit as one event each, in order, after what
/// the transaction held before; an insert of a written row, an update of an updated one, a delete of
/// a deleted one, each showing its change.
pub proof fn committed_rows_reach_the_consumer(
    settings: StreamSettings,
    state: StreamView,
    before: DecoderView,
    kind: RowsKind,
    changes: Vec<MysqlRowChange>,
    row_time: u64,
    between: DecoderView,
    rows: Result<Vec<MysqlBinlogMessage>, Error>,
    xid: u64,
    commit_time: u64,
    after: DecoderView,
    commit: Result<Vec<MysqlBinlogMessage>, Error>,
    now: u64,
)
    requires
        before.tx is Some,
        state.tx is Some,
        binlog::classified(
            before,
            BinlogEvent::Rows { kind, changes: Ok(changes) },
            row_time,
            between,
            rows,
        ),
        binlog::classified(between, BinlogEvent::Xid { xid }, commit_time, after, commit),
        forall|i: int|
            0 <= i < changes@.len() ==> {
                let schema = text::text_option((#[trigger] changes@[i]).schema);
                &&& filter::allowed(
                    schema,
                    changes@[i].table@,
                    settings.include_list,
                    settings.exclude_list,
                )
                &&& schema matches Some(database) ==> state.announced.contains(
                    (database, changes@[i].table@),
                )
            },
    ensures
        rows is Ok,
        commit is Ok,
        ({
            let messages = stream::message_views((rows->Ok_0)@) + stream::message_views(
                (commit->Ok_0)@,
            );
            let events = stream::run(settings, state, messages, now).1;
            &&& events.len() == state.partial.len() + changes@.len()
            &&& forall|i: int|
                0 <= i < state.partial.len() ==> (#[trigger] events[i]).op == state.partial[i].op
                    && events[i].after == state.partial[i].after
            &&& forall|i: int|
                0 <= i < changes@.len() ==> {
                    let one = events[state.partial.len() + i];
                    let change = #[trigger] changes@[i];
                    &&& one.op == told_operation(kind)
                    &&& one.before == (match change.before {
                        Some(row) => BeforeView::Full {
                            row: json::json(row),
                            unavailable_columns: Seq::empty(),
                        },
                        None => BeforeView::Unavailable,
                    })
                    &&& one.after == json::json_option(change.after)
                    &&& one.table == change.table@
                    &&& one.schema == text::text_option(change.schema)
                    &&& one.primary_key == event::key_names(change.primary_key)
                    &&& one.ts == commit_time
                }
        }),
{
    rows_keep_their_kind(before, kind, changes, row_time, between, rows);
    commit_ends_the_transaction(between, xid, commit_time, after, commit);
    let out = (rows->Ok_0)@;
    let first = stream::message_views(out);
    let end = (commit->Ok_0)@;
    let second = stream::message_views(end);
    assert(out.len() == changes@.len());
    lemma_rows_wait(settings, state, kind, changes@, out, now);
    crate::mysql::stream_laws::batches_do_not_matter(settings, state, first, second, now);
    let held = stream::run(settings, state, first, now);
    assert(second.len() == 1);
    assert(second.drop_last() =~= Seq::<MessageView>::empty());
    assert(second[0] == end[0]@);
    let nothing = stream::run(settings, held.0, second.drop_last(), now);
    assert(nothing == (held.0, Seq::<EventView>::empty()));
    let last = stream::step(settings, held.0, second[0], now);
    assert(Seq::<EventView>::empty() + last.1 =~= last.1);
    assert(held.1 + last.1 =~= last.1);
    let events = stream::run(settings, state, first + second, now).1;
    assert(events == last.1);
    assert forall|i: int| 0 <= i < state.partial.len() implies (#[trigger] events[i]).op
        == state.partial[i].op && events[i].after == state.partial[i].after by {
        assert(held.0.partial[i] == state.partial[i]);
    }
    assert forall|i: int| 0 <= i < changes@.len() implies {
        let one = events[state.partial.len() + i];
        let change = #[trigger] changes@[i];
        &&& one.op == told_operation(kind)
        &&& one.before == (match change.before {
            Some(row) => BeforeView::Full {
                row: json::json(row),
                unavailable_columns: Seq::empty(),
            },
            None => BeforeView::Unavailable,
        })
        &&& one.after == json::json_option(change.after)
        &&& one.table == change.table@
        &&& one.schema == text::text_option(change.schema)
        &&& one.primary_key == event::key_names(change.primary_key)
        &&& one.ts == commit_time
    } by {
        assert(waits_as(kind, changes@[i], held.0.partial[state.partial.len() + i]));
    }
}

/// Whether an event that awaits its commit shows a change of a rows event's kind.
pub open spec fn waits_as(kind: RowsKind, change: MysqlRowChange, one: EventView) -> bool {
    &&& one.op == told_operation(kind)
    &&& one.before == (match change.before {
        Some(row) => BeforeView::Full { row: json::json(row), unavailable_columns: Seq::empty() },
        None => BeforeView::Unavailable,
    })
    &&& one.after == json::json_option(change.after)
    &&& one.table == change.table@
    &&& one.schema == text::text_option(change.schema)
    &&& one.primary_key == event::key_names(change.primary_key)
}

proof fn lemma_rows_wait(
    settings: StreamSettings,
    state: StreamView,
    kind: RowsKind,
    changes: Seq<MysqlRowChange>,
    out: Seq<MysqlBinlogMessage>,
    now: u64,
)
    requires
        out.len() == changes.len(),
        state.tx is Some,
        forall|i: int| 0 <= i < changes.len() ==> keeps_kind(kind, #[trigger] changes[i], out[i]),
        forall|i: int|
            0 <= i < changes.len() ==> {
                let schema = text::text_option((#[trigger] changes[i]).schema);
                &&& filter::allowed(
                    schema,
                    changes[i].table@,
                    settings.include_list,
                    settings.exclude_list,
                )
                &&& schema matches Some(database) ==> state.announced.contains(
                    (database, changes[i].table@),
                )
            },
    ensures
        ({
            let (next, events) = stream::run(settings, state, stream::message_views(out), now);
            &&& events.len() == 0
            &&& next == (StreamView { partial: next.partial, ..state })
            &&& next.partial.len() == state.partial.len() + changes.len()
            &&& forall|i: int|
                0 <= i < state.partial.len() ==> next.partial[i] == #[trigger] state.partial[i]
            &&& forall|i: int|
                0 <= i < changes.len() ==> waits_as(
                    kind,
                    #[trigger] changes[i],
                    next.partial[state.partial.len() + i],
                )
        }),
    decreases out.len(),
{
    let views = stream::message_views(out);
    if out.len() > 0 {
        let n = out.len() - 1;
        let fewer = changes.drop_last();
        let less = out.drop_last();
        assert forall|i: int| 0 <= i < fewer.len() implies keeps_kind(
            kind,
            #[trigger] fewer[i],
            less[i],
        ) by {
            assert(fewer[i] == changes[i]);
        }
        assert forall|i: int| 0 <= i < fewer.len() implies {
            let schema = text::text_option((#[trigger] fewer[i]).schema);
            &&& filter::allowed(
                schema,
                fewer[i].table@,
                settings.include_list,
                settings.exclude_list,
            )
            &&& schema matches Some(database) ==> state.announced.contains(
                (database, fewer[i].table@),
            )
        } by {
            assert(fewer[i] == changes[i]);
        }
        lemma_rows_wait(settings, state, kind, fewer, less, now);
        assert(views.drop_last() =~= stream::message_views(less));
        assert(views.last() == out[n]@);
        let before = stream::run(settings, state, stream::message_views(less), now).0;
        let next = stream::run(settings, state, views, now).0;
        assert(keeps_kind(kind, changes[n], out[n]));
        assert(filter::allowed(
            text::text_option(changes[n].schema),
            changes[n].table@,
            settings.include_list,
            settings.exclude_list,
        ));
        assert(next.partial.len() == before.partial.len() + 1);
        assert forall|i: int| 0 <= i < state.partial.len() implies next.partial[i]
            == #[trigger] state.partial[i] by {
            assert(next.partial[i] == before.partial[i]);
        }
        assert forall|i: int| 0 <= i < changes.len() implies waits_as(
            kind,
            #[trigger] changes[i],
            next.partial[state.partial.len() + i],
        ) by {
            if i < n {
                assert(fewer[i] == changes[i]);
                assert(next.partial[state.partial.len() + i] == before.partial[state.partial.len()
                    + i]);
            }
        }
    }
}

/// A table is announced exactly where its schema is known, this run has not announced it, and the
/// catalog has it. The announcement shows the catalog's columns and key, belongs to the open
/// transaction, and hands over no row.
pub proof fn announcement_shows_the_catalog(
    settings: StreamSettings,
    state: StreamView,
    schema_name: Option<Seq<char>>,
    table: Seq<char>,
    now: u64,
)
    ensures
        ({
            let told = stream::announcement(settings, state, schema_name, table, now);
            let due = schema_name matches Some(database) && !state.announced.contains(
                (database, table),
            ) && settings.columns.found(database, table) is Some;
            &&& told is Some <==> due
            &&& told matches Some(one) ==> ({
                let database = schema_name->0;
                let columns = schema::catalog_views(
                    (settings.columns.found(database, table)->0)@,
                );
                let keys = match settings.keys.found(database, table) {
                    Some(keys) => text::texts(keys@),
                    None => Seq::empty(),
                };
                let shape = schema::catalog_shape(database, table, columns, keys);
                &&& one.op == Operation::SchemaChange
                &&& one.schema == Some(database)
                &&& one.table == table + "__ddl_events"@
                &&& one.source.source_name == settings.source_name
                &&& one.source.offset == parser::source_offset(
                    state.file,
                    state.position,
                    state.gtid,
                )
                &&& one.ts == (if state.commit_ts == 0 {
                    now
                } else {
                    state.commit_ts
                })
                &&& one.schema_id == Some(schema::shape_text(shape))
                &&& one.after matches Some(payload) && payload.members()["ddl_type"@]
                    == json::Json::Text("READ_SCHEMA"@) && payload.members()["result_schema"@]
                    == schema::shape_json(shape)
                &&& state.tx is None ==> one.transaction is None
                &&& state.tx matches Some(id) ==> (one.transaction matches Some(tag) && tag.tx_id
                    == id && tag.event_index == state.partial.len() as u32
                    && tag.total_events is None)
            })
        }),
{
    if stream::announcement(settings, state, schema_name, table, now) is Some {
        let database = schema_name->0;
        let columns = schema::catalog_views((settings.columns.found(database, table)->0)@);
        let keys = match settings.keys.found(database, table) {
            Some(keys) => text::texts(keys@),
            None => Seq::empty(),
        };
        let ts = if state.commit_ts == 0 {
            now
        } else {
            state.commit_ts
        };
        let captured = DdlView {
            ddl_type: schema::DDL_TYPE_READ_SCHEMA@,
            schema: database,
            table,
            statement: schema::observation(database, table, "information_schema"@),
            result_schema: Some(schema::catalog_shape(database, table, columns, keys)),
            ts,
        };
        schema_laws::schema_event_tells_the_statement(
            captured,
            settings.source_name,
            parser::source_offset(state.file, state.position, state.gtid),
            ts,
        );
    }
}

/// Of the events that the driver does not know, a MariaDB transaction's start gives its identity, an
/// encrypted log's start ends the reading for good, and all others change nothing.
pub proof fn unknown_events_are_told_apart(
    before: DecoderView,
    raw_event_type: u8,
    server_id: u32,
    data: Seq<u8>,
    after: DecoderView,
    messages: Result<Vec<MysqlBinlogMessage>, Error>,
)
    requires
        binlog::unclassified(before, raw_event_type, server_id, data, after, messages),
    ensures
        raw_event_type == 162 && data.len() >= 13 ==> ({
            &&& after == (DecoderView { gtid: after.gtid, ..before })
            &&& after.gtid == gtid::mariadb_gtid(server_id, data)
            &&& after.gtid is Some
            &&& messages matches Ok(out) && out@.len() == 1 && (
            out@[0] matches MysqlBinlogMessage::Gtid { gtid: named } && Some(named@) == after.gtid)
        }),
        raw_event_type == 162 && data.len() < 13 ==> messages is Err && after == before,
        raw_event_type == 164 ==> (messages matches Err(error) && error is Unrecoverable) && after
            == before,
        raw_event_type != 162 && raw_event_type != 164 ==> (messages matches Ok(out) && out@.len()
            == 0) && after == before,
{
    if messages is Ok {
        let out = messages->Ok_0;
        let views = stream::message_views(out@);
        assert(views.len() == out@.len());
        if out@.len() > 0 {
            assert(views[0] == out@[0]@);
        }
    }
}

/// An event is decoded from its own place on and with its own time in milliseconds: one with a
/// place of its own moves the decoder there first, whatever it holds.
pub proof fn arriving_event_moves_the_place(
    before: DecoderView,
    log_pos: u32,
    timestamp_secs: u32,
    data: BinlogEvent,
    after: DecoderView,
    messages: Result<Vec<MysqlBinlogMessage>, Error>,
)
    requires
        reader::arrived(
            before,
            log_pos,
            timestamp_secs,
            EventBody::Classified(data),
            after,
            messages,
        ),
    ensures
        log_pos > 0 ==> binlog::classified(
            DecoderView { position: log_pos, ..before },
            data,
            (1_000 * timestamp_secs) as u64,
            after,
            messages,
        ),
        log_pos == 0 ==> binlog::classified(
            before,
            data,
            (1_000 * timestamp_secs) as u64,
            after,
            messages,
        ),
{
    assert(DecoderView { position: before.position, ..before } == before);
}

/// Decoding a rows event gives a message of its own kind for each of its changes, in order and
/// saying what the change says: a delete stays a delete, an update an update, and a write a write.
/// The start of a transaction comes first where none was open, and nothing else comes.
pub proof fn decoded_rows_keep_their_kind(kind: RowsKind, changes: Vec<MysqlRowChange>)
    ensures
        forall|
            decoder: &mut BinlogDecoder,
            timestamp_ms: u64,
            messages: Result<Vec<MysqlBinlogMessage>, Error>,
        | #[trigger]
            call_ensures(
                BinlogDecoder::decode_event_data,
                (decoder, BinlogEvent::Rows { kind, changes: Ok(changes) }, timestamp_ms),
                messages,
            ) ==> (messages matches Ok(out) && all_keep_kind(
                kind,
                changes@,
                out@,
                if (*decoder).active_tx_id is None {
                    1
                } else {
                    0
                },
            )),
{
    assert forall|
        decoder: &mut BinlogDecoder,
        timestamp_ms: u64,
        messages: Result<Vec<MysqlBinlogMessage>, Error>,
    | #[trigger]
        call_ensures(
            BinlogDecoder::decode_event_data,
            (decoder, BinlogEvent::Rows { kind, changes: Ok(changes) }, timestamp_ms),
            messages,
        ) implies (messages matches Ok(out) && all_keep_kind(
        kind,
        changes@,
        out@,
        if (*decoder).active_tx_id is None {
            1
        } else {
            0
        },
    )) by {
        rows_keep_their_kind(
            (*decoder).progress(),
            kind,
            changes,
            timestamp_ms,
            (*final(decoder)).progress(),
            messages,
        );
    }
}

/// Whether messages, behind as many others as lead them, are of a kind and say what some changes
/// say, one each and in order.
pub open spec fn all_keep_kind(
    kind: RowsKind,
    changes: Seq<MysqlRowChange>,
    out: Seq<MysqlBinlogMessage>,
    lead: int,
) -> bool {
    &&& out.len() == changes.len() + lead
    &&& forall|i: int| 0 <= i < lead ==> (#[trigger] out[i]) is Begin
    &&& forall|i: int|
        0 <= i < changes.len() ==> keeps_kind(kind, #[trigger] changes[i], out[lead + i])
}

/// Transactions that the log does not number are numbered one after another, so that no two of them
/// share a number; one that is open keeps its own.
pub proof fn transactions_are_numbered_one_after_another(state: DecoderView)
    requires
        state.next_tx < u64::MAX,
    ensures
        state.tx is Some ==> binlog::opened(state) == state,
        state.tx is None ==> binlog::opened(state).tx == Some(state.next_tx),
        state.tx is None ==> binlog::opened(state).next_tx == state.next_tx + 1,
        state.tx is None && state.next_tx + 1 < u64::MAX ==> binlog::opened(
            DecoderView { tx: None, ..binlog::opened(state) },
        ).tx != binlog::opened(state).tx,
{
}

} // verus!
