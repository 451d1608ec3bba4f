//! What a PostgreSQL bulk snapshot keeps, chunk after chunk.
use vstd::prelude::*;
use crate::event::{EventView, Operation};
use crate::json::Json;
use crate::postgres::resume;
use crate::postgres::resume::CheckpointView;
use crate::postgres::snapshot;
use crate::postgres::snapshot::{SnapSettings, SnapView, TableSnapshotView, TableView};
use crate::text;

verus! {

/// The tables' durable progress.
pub open spec fn records(state: SnapView) -> Seq<TableSnapshotView> {
    state.tables.map_values(|table: TableView| table.snapshot)
}

/// The rows emitted are those that the tables have processed.
pub open spec fn tallied(state: SnapView) -> bool {
    state.emitted == snapshot::counted(0, resume::processed(records(state)) as int)
}

/// A table that is not read live stands at the row after those it has processed, and no table has
/// gone past its rows.
pub open spec fn in_place(settings: SnapSettings, state: SnapView) -> bool {
    forall|i: int|
        0 <= i < state.tables.len() ==> {
            let table = #[trigger] state.tables[i];
            &&& 0 <= table.next_row <= table.rows.len() <= u64::MAX
            &&& table.live && settings.connected ==> table.next_row == 0
            &&& !table.live ==> table.next_row == table.snapshot.rows_processed
        }
}

/// The rows that the tables from a place on have not emitted yet, where none is read from the server.
pub open spec fn rows_left(tables: Seq<TableView>, from: int) -> Seq<Json>
    decreases tables.len() - from,
{
    if from < 0 || from >= tables.len() {
        Seq::empty()
    } else {
        tables[from].rows.skip(tables[from].next_row) + rows_left(tables, from + 1)
    }
}

/// The rows among some events, in their order.
pub open spec fn rows_in(events: Seq<EventView>) -> Seq<Json>
    decreases events.len(),
{
    if events.len() == 0 {
        Seq::empty()
    } else {
        let one = events.last();
        match one.after {
            Some(row) if one.op == Operation::Read => rows_in(events.drop_last()).push(row),
            _ => rows_in(events.drop_last()),
        }
    }
}

proof fn lemma_processed_update(tables: Seq<TableSnapshotView>, place: int, one: TableSnapshotView)
    requires
        0 <= place < tables.len(),
    ensures
        resume::processed(tables.update(place, one)) == resume::processed(tables)
            - tables[place].rows_processed + one.rows_processed,
        resume::processed(tables) >= tables[place].rows_processed,
    decreases tables.len(),
{
    let next = tables.update(place, one);
    if place == tables.len() - 1 {
        assert(next.drop_last() =~= tables.drop_last());
    } else {
        assert(next.drop_last() =~= tables.drop_last().update(place, one));
        lemma_processed_update(tables.drop_last(), place, one);
    }
}

proof fn lemma_records_update(state: SnapView, place: int, one: TableView)
    requires
        0 <= place < state.tables.len(),
    ensures
        state.tables.update(place, one).map_values(|table: TableView| table.snapshot)
            =~= records(state).update(place, one.snapshot),
{
}

pub(crate) proof fn lemma_announced_keeps(
    settings: SnapSettings,
    state: SnapView,
    events: Seq<EventView>,
    now: u64,
)
    requires
        state.current < state.tables.len(),
    ensures
        ({
            let (next, more) = snapshot::announced(settings, state, events, now);
            &&& next.current == state.current
            &&& next.tables.len() == state.tables.len()
            &&& next.emitted == state.emitted
            &&& records(next) == records(state)
            &&& in_place(settings, state) ==> in_place(settings, next)
            &&& rows_in(more) == rows_in(events)
            &&& forall|i: int|
                0 <= i < state.tables.len() ==> (#[trigger] next.tables[i]).rows
                    == state.tables[i].rows && next.tables[i].next_row == state.tables[i].next_row
                    && next.tables[i].live == state.tables[i].live
        }),
{
    let (next, more) = snapshot::announced(settings, state, events, now);
    let place = state.current as int;
    let table = state.tables[place];
    assert(records(next) =~= records(state));
    if !table.announced && table.columns.len() > 0 {
        let one = snapshot::announcement(settings, state, table, now);
        assert(events.push(one).drop_last() =~= events);
        assert(one.op != Operation::Read);
    }
}

pub(crate) proof fn lemma_with_rows_keeps(settings: SnapSettings, state: SnapView, count: int)
    requires
        state.current < state.tables.len(),
        !(state.tables[state.current as int].live && settings.connected),
        0 <= count <= state.tables[state.current as int].rows.len()
            - state.tables[state.current as int].next_row,
    ensures
        tallied(state) ==> tallied(snapshot::with_rows(state, count)),
        in_place(settings, state) ==> in_place(settings, snapshot::with_rows(state, count)),
{
    let place = state.current as int;
    let next = snapshot::with_rows(state, count);
    lemma_records_update(state, place, next.tables[place]);
    lemma_processed_update(records(state), place, next.tables[place].snapshot);
    assert(records(next) =~= records(state).update(place, next.tables[place].snapshot));
}

pub(crate) proof fn lemma_past_table_keeps(settings: SnapSettings, state: SnapView)
    requires
        state.current < state.tables.len(),
    ensures
        tallied(state) ==> tallied(snapshot::past_table(state)),
        in_place(settings, state) ==> in_place(settings, snapshot::past_table(state)),
{
    let place = state.current as int;
    let next = snapshot::past_table(state);
    lemma_records_update(state, place, next.tables[place]);
    lemma_processed_update(records(state), place, next.tables[place].snapshot);
    assert(records(next) =~= records(state).update(place, next.tables[place].snapshot));
}

/// Filling a chunk keeps the tally: the rows emitted are those that the tables have processed, and
/// a table that is not read live stands at the row after them.
pub proof fn filling_keeps_the_tally(
    settings: SnapSettings,
    state: SnapView,
    events: Seq<EventView>,
    requested: usize,
    now: u64,
)
    requires
        tallied(state),
        in_place(settings, state),
    ensures
        tallied(snapshot::filled(settings, state, events, requested, now).0),
        in_place(settings, snapshot::filled(settings, state, events, requested, now).0),
    decreases state.tables.len() - state.current,
{
    if events.len() >= requested || state.current >= state.tables.len() {
    } else {
        lemma_announced_keeps(settings, state, events, now);
        let (next, more) = snapshot::announced(settings, state, events, now);
        let table = next.tables[next.current as int];
        lemma_past_table_keeps(settings, next);
        if !(table.live && settings.connected) {
            let count = snapshot::fitting(table, more.len() as int, requested as int);
            assert(in_place(settings, next));
            lemma_with_rows_keeps(settings, next, count);
            let read = snapshot::with_rows(next, count);
            let all = more + snapshot::row_events(settings, next, count, now);
            if table.next_row + count >= table.rows.len() {
                lemma_past_table_keeps(settings, read);
                filling_keeps_the_tally(
                    settings,
                    snapshot::past_table(read),
                    all,
                    requested,
                    now,
                );
            }
        }
    }
}

/// Taking in live rows keeps the tally.
pub proof fn live_rows_keep_the_tally(
    settings: SnapSettings,
    state: SnapView,
    rows: Seq<(Vec<String>, serde_json::Value)>,
)
    requires
        state.current < state.tables.len(),
        state.tables[state.current as int].live,
        tallied(state),
        in_place(settings, state),
    ensures
        tallied(snapshot::with_live_rows(state, rows)),
        in_place(settings, snapshot::with_live_rows(state, rows)),
{
    let place = state.current as int;
    let next = snapshot::with_live_rows(state, rows);
    if rows.len() == 0 {
        lemma_past_table_keeps(settings, state);
    } else {
        lemma_records_update(state, place, next.tables[place]);
        lemma_processed_update(records(state), place, next.tables[place].snapshot);
        assert(records(next) =~= records(state).update(place, next.tables[place].snapshot));
    }
}

proof fn lemma_rows_of_table(
    settings: SnapSettings,
    state: SnapView,
    events: Seq<EventView>,
    count: int,
    now: u64,
)
    requires
        state.current < state.tables.len(),
        0 <= state.tables[state.current as int].next_row,
        0 <= count <= state.tables[state.current as int].rows.len()
            - state.tables[state.current as int].next_row,
    ensures
        rows_in(events + snapshot::row_events(settings, state, count, now)) == rows_in(events)
            + state.tables[state.current as int].rows.subrange(
            state.tables[state.current as int].next_row,
            state.tables[state.current as int].next_row + count,
        ),
    decreases count,
{
    let table = state.tables[state.current as int];
    let list = snapshot::row_events(settings, state, count, now);
    let from = table.next_row;
    if count == 0 {
        assert(events + list =~= events);
        assert(rows_in(events) + table.rows.subrange(from, from) =~= rows_in(events));
    } else {
        let shorter = snapshot::row_events(settings, state, count - 1, now);
        lemma_rows_of_table(settings, state, events, count - 1, now);
        assert((events + list).drop_last() =~= events + shorter);
        assert((events + list).last() == list[count - 1]);
        assert(rows_in(events) + table.rows.subrange(from, from + count) =~= (rows_in(events)
            + table.rows.subrange(from, from + count - 1)).push(table.rows[from + count - 1]));
    }
}

proof fn lemma_rows_left_same(a: Seq<TableView>, b: Seq<TableView>, from: int)
    requires
        a.len() == b.len(),
        0 <= from,
        forall|i: int|
            from <= i < a.len() ==> (#[trigger] a[i]).rows == b[i].rows && a[i].next_row
                == b[i].next_row,
    ensures
        rows_left(a, from) == rows_left(b, from),
    decreases a.len() - from,
{
    if from < a.len() {
        assert(a[from].rows == b[from].rows);
        lemma_rows_left_same(a, b, from + 1);
    }
}

/// Where no table is read from the server, the rows come out in order, each once: those of the chunk and
/// those left after it are those left before it.
pub proof fn rows_come_out_in_order_once(
    settings: SnapSettings,
    state: SnapView,
    events: Seq<EventView>,
    requested: usize,
    now: u64,
)
    requires
        in_place(settings, state),
        !settings.connected || forall|i: int|
            0 <= i < state.tables.len() ==> !(#[trigger] state.tables[i]).live,
    ensures
        ({
            let (next, all, step) = snapshot::filled(settings, state, events, requested, now);
            rows_in(all) + rows_left(next.tables, next.current as int) == rows_in(events)
                + rows_left(state.tables, state.current as int)
        }),
    decreases state.tables.len() - state.current,
{
    if events.len() >= requested || state.current >= state.tables.len() {
    } else {
        lemma_announced_keeps(settings, state, events, now);
        let (next, more) = snapshot::announced(settings, state, events, now);
        let place = state.current as int;
        let table = next.tables[place];
        lemma_rows_left_same(next.tables, state.tables, place);
        let count = snapshot::fitting(table, more.len() as int, requested as int);
        assert(in_place(settings, next));
        lemma_with_rows_keeps(settings, next, count);
        let read = snapshot::with_rows(next, count);
        let all = more + snapshot::row_events(settings, next, count, now);
        lemma_rows_of_table(settings, next, more, count, now);
        let from = table.next_row;
        lemma_rows_left_same(read.tables, next.tables, place + 1);
        let rest = rows_left(next.tables, place + 1);
        assert(rows_in(all) + (table.rows.skip(from + count) + rest) =~= rows_in(more) + (
        table.rows.skip(from) + rest));
        if from + count >= table.rows.len() {
            lemma_past_table_keeps(settings, read);
            let past = snapshot::past_table(read);
            lemma_rows_left_same(past.tables, read.tables, place + 1);
            assert(table.rows.skip(from + count) + rest =~= rest);
            if settings.connected {
                assert forall|i: int| 0 <= i < past.tables.len() implies !(
                #[trigger] past.tables[i]).live by {
                    assert(!state.tables[i].live);
                    assert(!next.tables[i].live);
                }
            }
            rows_come_out_in_order_once(settings, past, all, requested, now);
        }
    }
}

/// Every table before the current one is complete.
pub open spec fn done_behind(state: SnapView) -> bool {
    &&& state.current <= state.tables.len()
    &&& forall|i: int|
        0 <= i < state.current ==> (#[trigger] state.tables[i]).snapshot.is_complete
}

/// Filling a chunk leaves no table behind that is not complete.
pub proof fn filling_leaves_nothing_behind(
    settings: SnapSettings,
    state: SnapView,
    events: Seq<EventView>,
    requested: usize,
    now: u64,
)
    requires
        done_behind(state),
    ensures
        done_behind(snapshot::filled(settings, state, events, requested, now).0),
    decreases state.tables.len() - state.current,
{
    if events.len() >= requested || state.current >= state.tables.len() {
    } else {
        let (next, more) = snapshot::announced(settings, state, events, now);
        let table = next.tables[next.current as int];
        assert(done_behind(next));
        if !(table.live && settings.connected) {
            let count = snapshot::fitting(table, more.len() as int, requested as int);
            let read = snapshot::with_rows(next, count);
            let all = more + snapshot::row_events(settings, next, count, now);
            assert(done_behind(read));
            if table.next_row + count >= table.rows.len() {
                assert(done_behind(snapshot::past_table(read)));
                filling_leaves_nothing_behind(
                    settings,
                    snapshot::past_table(read),
                    all,
                    requested,
                    now,
                );
            }
        }
    }
}

/// Taking in live rows leaves no table behind that is not complete.
pub proof fn live_rows_leave_nothing_behind(
    state: SnapView,
    rows: Seq<(Vec<String>, serde_json::Value)>,
)
    requires
        done_behind(state),
        state.current < state.tables.len(),
    ensures
        done_behind(snapshot::with_live_rows(state, rows)),
{
}

/// An empty chunk is the completion signal: a chunk that ends without an event leaves every table
/// complete.
pub proof fn empty_chunk_means_exhausted(
    settings: SnapSettings,
    state: SnapView,
    events: Seq<EventView>,
    requested: usize,
    now: u64,
)
    requires
        requested > 0,
        done_behind(state),
        in_place(settings, state),
    ensures
        ({
            let (next, all, step) = snapshot::filled(settings, state, events, requested, now);
            step is Done && all.len() == 0 ==> snapshot::all_complete(next.tables)
        }),
    decreases state.tables.len() - state.current,
{
    if events.len() >= requested || state.current >= state.tables.len() {
    } else {
        lemma_announced_keeps(settings, state, events, now);
        let (next, more) = snapshot::announced(settings, state, events, now);
        let table = next.tables[next.current as int];
        if !(table.live && settings.connected) {
            let count = snapshot::fitting(table, more.len() as int, requested as int);
            let read = snapshot::with_rows(next, count);
            let all = more + snapshot::row_events(settings, next, count, now);
            assert(0 <= count);
            assert(all.len() == more.len() + count);
            if table.next_row + count >= table.rows.len() {
                lemma_with_rows_keeps(settings, next, count);
                lemma_past_table_keeps(settings, read);
                let past = snapshot::past_table(read);
                assert(done_behind(past));
                empty_chunk_means_exhausted(settings, past, all, requested, now);
            }
        }
    }
}

proof fn lemma_first_incomplete(tables: Seq<TableSnapshotView>, from: int, current: int)
    requires
        0 <= from <= current <= tables.len(),
        forall|i: int| 0 <= i < current ==> (#[trigger] tables[i]).is_complete,
        current < tables.len() ==> !tables[current].is_complete,
    ensures
        resume::first_incomplete(tables, from) == current,
    decreases current - from,
{
    if from < current {
        assert(tables[from].is_complete);
        lemma_first_incomplete(tables, from + 1, current);
    }
}

/// A snapshot that goes on from its checkpoint, on the same tables with the same rows, stands
/// where it stood, once it has come to a table with rows to read or to the end. Only the tables'
/// shapes are announced anew.
pub proof fn checkpoint_resumes_where_it_stood(
    settings: SnapSettings,
    state: SnapView,
    fresh: SnapView,
    saved: CheckpointView,
)
    requires
        tallied(state),
        in_place(settings, state),
        settings.connected,
        done_behind(state),
        state.current < state.tables.len()
            ==> !state.tables[state.current as int].snapshot.is_complete,
        forall|i: int|
            0 <= i < state.tables.len() && (#[trigger] state.tables[i]).live ==> (
            state.tables[i].snapshot.cursor_position matches Some(cursor)
                ==> resume::usable_cursor(cursor, state.tables[i].keys.len())),
        saved.tables == records(state),
        saved.current == state.current,
        saved.chunk_index == state.chunk_index,
        fresh.tables.len() == state.tables.len(),
        forall|i: int|
            0 <= i < state.tables.len() ==> (#[trigger] fresh.tables[i]) == (TableView {
                snapshot: TableSnapshotView {
                    table: state.tables[i].snapshot.table,
                    ..fresh.tables[i].snapshot
                },
                next_row: fresh.tables[i].next_row,
                announced: false,
                schema_id: None,
                ..state.tables[i]
            }),
    ensures
        resume::resumable(fresh.tables, saved),
        resume::resumed(fresh, saved) == (SnapView {
            tables: state.tables.map_values(
                |table: TableView| TableView { announced: false, schema_id: None, ..table },
            ),
            emitted_in_run: 0,
            ..state
        }),
{
    let next = resume::resumed(fresh, saved);
    assert forall|i: int| 0 <= i < state.current implies (
    #[trigger] saved.tables[i]).is_complete by {
        assert(state.tables[i].snapshot.is_complete);
    }
    lemma_first_incomplete(saved.tables, 0, state.current as int);
    assert forall|i: int| 0 <= i < fresh.tables.len() implies resume::fits(
        #[trigger] fresh.tables[i],
        saved.tables[i],
    ) by {
        assert(saved.tables[i] == state.tables[i].snapshot);
        assert(fresh.tables[i].live == state.tables[i].live);
        assert(fresh.tables[i].keys == state.tables[i].keys);
    }
    assert forall|i: int| 0 <= i < fresh.tables.len() implies #[trigger] next.tables[i] == (
    TableView { announced: false, schema_id: None, ..state.tables[i] }) by {
        assert(saved.tables[i] == state.tables[i].snapshot);
        assert(fresh.tables[i].live == state.tables[i].live);
    }
    assert(next.tables =~= state.tables.map_values(
        |table: TableView| TableView { announced: false, schema_id: None, ..table },
    ));
}

/// Two rows that are not read live have the same offset only where they are the same row: offsets
/// do not repeat, within a chunk or across chunks.
pub proof fn offsets_do_not_repeat(
    table_index: nat,
    other_index: nat,
    table: TableView,
    other: TableView,
    place: nat,
    other_place: nat,
)
    requires
        !table.live,
        !other.live,
        snapshot::row_offset(table_index, table, place as int) == snapshot::row_offset(
            other_index,
            other,
            other_place as int,
        ),
    ensures
        table_index == other_index,
        place == other_place,
{
    reveal_strlit(":");
    assert(":"@ =~= seq![':']);
    let a = text::decimal_text(table_index);
    let b = text::decimal_text(place);
    let c = text::decimal_text(other_index);
    let d = text::decimal_text(other_place);
    text::decimal_is_digits(table_index);
    text::decimal_is_digits(place);
    text::decimal_is_digits(other_index);
    text::decimal_is_digits(other_place);
    assert(!a.contains(':') && !b.contains(':') && !c.contains(':') && !d.contains(':'));
    text::split_without_separator(a, ':');
    text::split_without_separator(c, ':');
    text::split_after_separator(a, ':', b);
    text::split_after_separator(c, ':', d);
    assert(seq![a].push(b) == seq![c].push(d));
    assert(seq![a].push(b)[0] == a && seq![a].push(b)[1] == b);
    assert(seq![c].push(d)[0] == c && seq![c].push(d)[1] == d);
    text::number_round_trip(table_index, 10);
    text::number_round_trip(place, 10);
    text::number_round_trip(other_index, 10);
    text::number_round_trip(other_place, 10);
}

/// No event is marked as of the last chunk before every table is complete, and then exactly the
/// last event of the chunk is.
pub proof fn only_the_end_is_marked(events: Seq<EventView>, complete: bool)
    requires
        forall|i: int|
            0 <= i < events.len() ==> ((#[trigger] events[i]).snapshot matches Some(tag)
                && !tag.is_last_chunk),
    ensures
        forall|i: int|
            0 <= i < events.len() ==> ((#[trigger] snapshot::closed(
                events,
                complete,
            )[i]).snapshot matches Some(tag) && tag.is_last_chunk == (complete && i
                == events.len() - 1)),
{
}

} // verus!
