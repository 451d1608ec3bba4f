//! What the binlog stream promises its consumers.
use vstd::prelude::*;
use crate::event::{EventView, Operation};
use crate::filter;
use crate::mysql::gtid;
use crate::mysql::parser;
use crate::mysql::stream;
use crate::mysql::stream::{ChangeView, MessageView, StreamSettings, StreamView};
use crate::schema::DdlView;

verus! {

/// Rows wait for their transaction's end: a row delivers nothing by itself.
pub proof fn row_waits_for_its_commit(
    settings: StreamSettings,
    state: StreamView,
    op: Operation,
    change: ChangeView,
    now: u64,
)
    ensures
        stream::step(settings, state, MessageView::Rows { op, change }, now).1.len() == 0,
{
}

/// A commit delivers every event of its transaction, in order, with the transaction's size, its
/// own place in it, and the place in the log to resume after the transaction from.
pub proof fn commit_delivers_the_transaction(
    settings: StreamSettings,
    state: StreamView,
    tx_id: u64,
    timestamp_ms: u64,
    binlog_file: Seq<char>,
    binlog_pos: u32,
    gtid: Option<Seq<char>>,
    now: u64,
)
    ensures
        ({
            let (next, events) = stream::step(
                settings,
                state,
                MessageView::Xid { tx_id, timestamp_ms, binlog_file, binlog_pos, gtid },
                now,
            );
            &&& events.len() == state.partial.len()
            &&& next.partial.len() == 0
            &&& next.file == binlog_file && next.position == binlog_pos
            &&& forall|i: int|
                0 <= i < events.len() ==> {
                    let one = #[trigger] events[i];
                    &&& one.after == state.partial[i].after
                    &&& one.op == state.partial[i].op
                    &&& one.source.offset == parser::source_offset(
                        next.file,
                        next.position,
                        next.gtid,
                    )
                    &&& state.partial[i].transaction is Some ==> one.transaction is Some && (
                    one.transaction->0).total_events == Some(state.partial.len() as u32) && (
                    one.transaction->0).event_index == i as u32
                }
        }),
{
}

/// A change to a table that is not captured leaves no trace.
pub proof fn uncaptured_change_leaves_no_trace(
    settings: StreamSettings,
    state: StreamView,
    op: Operation,
    change: ChangeView,
    now: u64,
)
    requires
        !filter::allowed(
            change.schema,
            change.table,
            settings.include_list,
            settings.exclude_list,
        ),
    ensures
        stream::step(settings, state, MessageView::Rows { op, change }, now) == (
            state,
            Seq::<EventView>::empty(),
        ),
{
}

/// A statement on a table that is not captured delivers nothing of itself, and moves the position
/// all the same.
pub proof fn uncaptured_statement_moves_the_position(
    settings: StreamSettings,
    state: StreamView,
    captured: DdlView,
    timestamp_ms: u64,
    binlog_file: Seq<char>,
    binlog_pos: u32,
    now: u64,
)
    requires
        !filter::allowed(
            Some(captured.schema),
            captured.table,
            settings.include_list,
            settings.exclude_list,
        ),
        state.partial.len() == 0,
    ensures
        ({
            let (next, events) = stream::step(
                settings,
                state,
                MessageView::Ddl { captured, timestamp_ms, binlog_file, binlog_pos },
                now,
            );
            &&& events.len() == 0
            &&& next.file == binlog_file
            &&& next.position == binlog_pos
        }),
{
}

/// A table is announced once: what has been announced stays so, and is not announced again.
pub proof fn announced_table_stays_announced(
    settings: StreamSettings,
    state: StreamView,
    message: MessageView,
    table: (Seq<char>, Seq<char>),
    now: u64,
)
    requires
        state.announced.contains(table),
    ensures
        stream::step(settings, state, message, now).0.announced.contains(table),
        stream::announcement(settings, state, Some(table.0), table.1, now) is None,
{
    if let MessageView::Rows { op, change } = message {
        let next = stream::after_announcement(settings, state, change.schema, change.table, now);
        let k = choose|k: int| 0 <= k < state.announced.len() && state.announced[k] == table;
        assert(next.announced[k] == table);
    }
}

/// A captured row of a table that the catalog covers comes after the table's announcement.
pub proof fn row_follows_its_announcement(
    settings: StreamSettings,
    state: StreamView,
    op: Operation,
    change: ChangeView,
    now: u64,
)
    requires
        filter::allowed(
            change.schema,
            change.table,
            settings.include_list,
            settings.exclude_list,
        ),
        change.schema is Some,
        settings.columns.found(change.schema->0, change.table) is Some,
    ensures
        ({
            let next = stream::step(settings, state, MessageView::Rows { op, change }, now).0;
            &&& next.announced.contains((change.schema->0, change.table))
            &&& !state.announced.contains((change.schema->0, change.table)) ==> {
                &&& next.partial.len() == state.partial.len() + 2
                &&& next.partial[state.partial.len() as int].op == Operation::SchemaChange
                &&& next.partial.last().op == op
            }
        }),
{
    let table = (change.schema->0, change.table);
    let next = stream::after_announcement(settings, state, change.schema, change.table, now);
    if !state.announced.contains(table) {
        assert(next.announced.last() == table);
        assert(next.announced[next.announced.len() - 1] == table);
    }
}

/// Messages may be processed in any batches: two batches do what the whole does.
pub proof fn batches_do_not_matter(
    settings: StreamSettings,
    state: StreamView,
    first: Seq<MessageView>,
    second: Seq<MessageView>,
    now: u64,
)
    ensures
        ({
            let before = stream::run(settings, state, first, now);
            let after = stream::run(settings, before.0, second, now);
            stream::run(settings, state, first + second, now) == (after.0, before.1 + after.1)
        }),
    decreases second.len(),
{
    let before = stream::run(settings, state, first, now);
    if second.len() == 0 {
        assert(first + second =~= first);
        assert(before.1 + Seq::<EventView>::empty() =~= before.1);
    } else {
        batches_do_not_matter(settings, state, first, second.drop_last(), now);
        assert((first + second).drop_last() =~= first + second.drop_last());
        assert((first + second).last() == second.last());
        let part = stream::run(settings, before.0, second.drop_last(), now);
        let last = stream::step(settings, part.0, second.last(), now);
        assert((before.1 + part.1) + last.1 =~= before.1 + (part.1 + last.1));
    }
}

/// A heartbeat changes nothing, and delivers nothing.
pub proof fn heartbeat_changes_nothing(settings: StreamSettings, state: StreamView, now: u64)
    ensures
        stream::step(settings, state, MessageView::Heartbeat, now).0 == state,
        stream::step(settings, state, MessageView::Heartbeat, now).1.len() == 0,
{
}

/// A rotation moves the place to resume from to the next file, and changes nothing else: neither
/// the open transaction nor what waits for its commit.
pub proof fn rotation_moves_only_the_place(
    settings: StreamSettings,
    state: StreamView,
    file: Seq<char>,
    position: u32,
    now: u64,
)
    ensures
        ({
            let (next, events) = stream::step(
                settings,
                state,
                MessageView::Rotate { binlog_file: file, binlog_pos: position },
                now,
            );
            &&& events.len() == 0
            &&& next.file == file
            &&& next.position == position
            &&& next == (StreamView { file, position, ..state })
        }),
{
}

/// A transaction's identity is taken into the executed set, beside what the set holds; nothing else
/// changes.
pub proof fn identity_is_taken_into_the_set(
    settings: StreamSettings,
    state: StreamView,
    one: Seq<char>,
    now: u64,
    sid: Seq<char>,
    gno: int,
)
    ensures
        ({
            let (next, events) = stream::step(
                settings,
                state,
                MessageView::Gtid { gtid: one },
                now,
            );
            &&& events.len() == 0
            &&& next == (StreamView { gtid: next.gtid, ..state })
            &&& next.gtid == stream::set_after(state.gtid, Some(one))
            &&& gtid::read_set(state.gtid) matches Some(held) ==> (gtid::read_set(
                one,
            ) matches Some(added) ==> (gtid::read_set(next.gtid) matches Some(all)
                && (gtid::in_set(all, sid, gno) <==> (gtid::in_set(held, sid, gno)
                || gtid::in_set(added, sid, gno)))))
        }),
{
    if gtid::read_set(state.gtid) is Some && gtid::read_set(one) is Some {
        gtid::merged_set_is_the_union(state.gtid, one, sid, gno);
    }
}

/// Each delivered event is counted, once.
pub proof fn delivered_events_are_counted(
    settings: StreamSettings,
    state: StreamView,
    message: MessageView,
    now: u64,
)
    requires
        state.partial.len() <= u32::MAX,
        state.polled + state.partial.len() < u64::MAX,
    ensures
        ({
            let (next, events) = stream::step(settings, state, message, now);
            next.polled == state.polled + events.len()
        }),
{
}

} // verus!
