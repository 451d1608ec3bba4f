//! What a PostgreSQL bulk snapshot hands its consumer: each row as it was read, under its table's
//! name and key, and where the next read goes on.
use vstd::prelude::*;
use crate::event;
use crate::event::{BeforeView, Event, EventView, Operation};
use crate::json;
use crate::json::Json;
use crate::postgres::lsn;
use crate::postgres::parser;
use crate::postgres::snapshot;
use crate::postgres::snapshot::{
    ChunkActionView, PostgresSnapshotHandle, SnapSettings, SnapView, StepView, TableView,
};
use crate::schema;
use crate::schema_laws;
use crate::text;

verus! {

/// Where a dot stands in a table's configured name, and something on both sides of it.
pub open spec fn is_qualified(name: Seq<char>, dot: int) -> bool {
    &&& 0 < dot < name.len() - 1
    &&& name[dot] == '.'
    &&& forall|i: int| 0 <= i < dot ==> name[i] != '.'
}

proof fn lemma_found(name: Seq<char>, c: char)
    ensures
        0 <= text::find_char(name, c) <= name.len(),
        text::find_char(name, c) < name.len() ==> name[text::find_char(name, c)] == c,
        forall|i: int| 0 <= i < text::find_char(name, c) ==> name[i] != c,
    decreases name.len(),
{
    if name.len() > 0 && name[0] != c {
        let rest = name.drop_first();
        lemma_found(rest, c);
        assert forall|i: int| 0 <= i < text::find_char(name, c) implies name[i] != c by {
            if i > 0 {
                assert(rest[i - 1] == name[i]);
            }
        }
    }
}

/// A configured name with a schema gives back the schema and the table that it is made of; one
/// without is of `public`.
pub proof fn configured_name_is_split_at_its_dot(name: Seq<char>, dot: int)
    ensures
        is_qualified(name, dot) ==> parser::configured_table(name).0 + "."@
            + parser::configured_table(name).1 == name && parser::configured_table(name).0.len()
            == dot,
        (forall|i: int| !#[trigger] is_qualified(name, i)) ==> parser::configured_table(name) == (
            "public"@,
            name,
        ),
{
    reveal_strlit(".");
    lemma_found(name, '.');
    let found = text::find_char(name, '.');
    if is_qualified(name, dot) {
        assert(found == dot);
        assert(name.take(dot) + "."@ + name.skip(dot + 1) =~= name);
    }
    if 0 < found < name.len() - 1 {
        assert(is_qualified(name, found));
    }
}

/// Whether an event hands over a row of a table, as of a chunk: the row itself, read and not
/// changed, with the columns of the table's key where it has one.
pub open spec fn hands_over(
    one: EventView,
    settings: SnapSettings,
    chunk_index: u32,
    table: TableView,
    row: Json,
    now: u64,
) -> bool {
    &&& one.op == Operation::Read
    &&& one.before == BeforeView::Unavailable
    &&& one.after == Some(row)
    &&& one.schema == Some(parser::configured_table(table.snapshot.table).0)
    &&& one.table == parser::configured_table(table.snapshot.table).1
    &&& table.keys.len() > 0 ==> one.primary_key == Some(table.keys)
    &&& table.keys.len() == 0 ==> one.primary_key is None
    &&& one.schema_id == table.schema_id
    &&& one.unavailable_columns.len() == 0
    &&& one.transaction is None
    &&& one.ts == now
    &&& one.source.timestamp == now
    &&& one.source.source_name == settings.source_name
    &&& one.envelope_version == 1
    &&& one.snapshot matches Some(tag) && tag.snapshot_id == settings.snapshot_id && tag.chunk_index
        == chunk_index && !tag.is_last_chunk
}

/// The rows of a table that is not read live are handed over in order, one event each, from the
/// next one on; the table's cursor is the last one's offset, and the table stands behind it.
pub proof fn rows_are_handed_over(settings: SnapSettings, state: SnapView, count: int, now: u64)
    requires
        state.current < state.tables.len(),
        !state.tables[state.current as int].live,
        0 <= count <= state.tables[state.current as int].rows.len()
            - state.tables[state.current as int].next_row,
        state.tables[state.current as int].snapshot.rows_processed + count <= u64::MAX,
        state.emitted + count <= u64::MAX,
        state.emitted_in_run + count <= u64::MAX,
    ensures
        ({
            let table = state.tables[state.current as int];
            let events = snapshot::row_events(settings, state, count, now);
            let next = snapshot::with_rows(state, count);
            let after = next.tables[state.current as int];
            &&& events.len() == count
            &&& forall|k: int|
                0 <= k < count ==> hands_over(
                    #[trigger] events[k],
                    settings,
                    state.chunk_index,
                    table,
                    table.rows[table.next_row + k],
                    now,
                )
            &&& after.next_row == table.next_row + count
            &&& after.rows == table.rows
            &&& after.snapshot.rows_processed == table.snapshot.rows_processed + count
            &&& count > 0 ==> after.snapshot.cursor_position == Some(
                events[count - 1].source.offset,
            )
            &&& count == 0 ==> after.snapshot.cursor_position == table.snapshot.cursor_position
            &&& next.emitted == state.emitted + count
            &&& next.emitted_in_run == state.emitted_in_run + count
            &&& next.current == state.current
            &&& next.tables.len() == state.tables.len()
            &&& forall|i: int|
                0 <= i < state.tables.len() && i != state.current ==> (#[trigger] next.tables[i])
                    == state.tables[i]
        }),
{
}

/// Rows read from the server are handed over in order, one event each. The next read of the table
/// goes on behind the key of the last one, which the row's offset ends in. No rows mean that the
/// table is complete, and the next table comes.
pub proof fn live_rows_are_handed_over(
    settings: SnapSettings,
    state: SnapView,
    rows: Seq<(Vec<String>, serde_json::Value)>,
    now: u64,
)
    requires
        state.current < state.tables.len(),
        state.tables[state.current as int].snapshot.rows_processed + rows.len() <= u64::MAX,
        state.emitted + rows.len() <= u64::MAX,
        state.emitted_in_run + rows.len() <= u64::MAX,
    ensures
        ({
            let place = state.current as int;
            let table = state.tables[place];
            let events = snapshot::live_events(settings, state, rows, now);
            let next = snapshot::with_live_rows(state, rows);
            let after = next.tables[place];
            &&& events.len() == rows.len()
            &&& forall|k: int|
                0 <= k < rows.len() ==> hands_over(
                    #[trigger] events[k],
                    settings,
                    state.chunk_index,
                    table,
                    json::json(rows[k].1),
                    now,
                ) && events[k].source.offset == table.snapshot.table + ":"@ + json::strings_text(
                    text::texts(rows[k].0@),
                )
            &&& rows.len() > 0 ==> after.snapshot.cursor_position == Some(
                json::strings_text(text::texts(rows[rows.len() - 1].0@)),
            ) && after.snapshot.is_complete == table.snapshot.is_complete && next.current
                == state.current
            &&& rows.len() == 0 ==> after.snapshot.is_complete && after.snapshot.cursor_position
                == table.snapshot.cursor_position && next.current == state.current + 1
            &&& after.snapshot.rows_processed == table.snapshot.rows_processed + rows.len()
            &&& after.snapshot.table == table.snapshot.table
            &&& after.snapshot.total_rows == table.snapshot.total_rows
            &&& after.keys == table.keys
            &&& after.key_types == table.key_types
            &&& after.live == table.live
            &&& next.emitted == state.emitted + rows.len()
            &&& next.emitted_in_run == state.emitted_in_run + rows.len()
            &&& next.chunk_index == state.chunk_index
            &&& next.tables.len() == state.tables.len()
            &&& forall|i: int|
                0 <= i < state.tables.len() && i != place ==> (#[trigger] next.tables[i])
                    == state.tables[i]
        }),
{
}

/// A chunk asks the server only for the table that it stands at, behind the key that was read last,
/// and for no more rows than it has room for; a table whose rows are held is never asked for.
pub proof fn chunk_asks_for_what_fits(
    settings: SnapSettings,
    state: SnapView,
    events: Seq<EventView>,
    requested: usize,
    now: u64,
)
    ensures
        ({
            let (next, all, step) = snapshot::filled(settings, state, events, requested, now);
            step matches StepView::Fetch { table_index, cursor, limit } ==> {
                &&& table_index == next.current
                &&& table_index < next.tables.len()
                &&& next.tables[table_index].live
                &&& settings.connected
                &&& cursor == next.tables[table_index].snapshot.cursor_position
                &&& all.len() + limit == requested
                &&& limit > 0
            }
        }),
    decreases state.tables.len() - state.current,
{
    if events.len() >= requested || state.current >= state.tables.len() {
    } else {
        let (next, more) = snapshot::announced(settings, state, events, now);
        let table = next.tables[next.current as int];
        if !(table.live && settings.connected) {
            let count = snapshot::fitting(table, more.len() as int, requested as int);
            let read = snapshot::with_rows(next, count);
            let all = more + snapshot::row_events(settings, next, count, now);
            if table.next_row + count >= table.rows.len() {
                chunk_asks_for_what_fits(
                    settings,
                    snapshot::past_table(read),
                    all,
                    requested,
                    now,
                );
            }
        }
    }
}

/// A table whose catalog was read is announced once, before its rows: by an event of the chunk that
/// hands over no row, that shows the catalog's columns as of the snapshot's place in the log, and
/// that names the shape which the table's rows name from then on.
pub proof fn table_is_announced_once(
    settings: SnapSettings,
    state: SnapView,
    events: Seq<EventView>,
    now: u64,
)
    requires
        state.current < state.tables.len(),
    ensures
        ({
            let place = state.current as int;
            let table = state.tables[place];
            let (next, all) = snapshot::announced(settings, state, events, now);
            let due = !table.announced && table.columns.len() > 0;
            &&& next.tables[place].announced
            &&& !due ==> all == events
            &&& !due ==> next.tables[place].schema_id == table.schema_id
            &&& due ==> all.len() == events.len() + 1 && all.drop_last() == events
            &&& due ==> ({
                let one = all.last();
                &&& one.op == Operation::SchemaChange
                &&& one.schema == Some(parser::configured_table(table.snapshot.table).0)
                &&& one.table == parser::configured_table(table.snapshot.table).1
                    + "__ddl_events"@
                &&& one.ts == now
                &&& one.source.source_name == settings.source_name
                &&& one.source.offset == lsn::lsn_text(settings.watermark)
                &&& one.schema_id is Some
                &&& next.tables[place].schema_id == one.schema_id
                &&& one.schema_id == Some(
                    schema::shape_text(
                        schema::catalog_shape(
                            parser::configured_table(table.snapshot.table).0,
                            parser::configured_table(table.snapshot.table).1,
                            table.columns,
                            table.keys,
                        ),
                    ),
                )
                &&& one.snapshot matches Some(tag) && tag.snapshot_id == settings.snapshot_id
                    && tag.chunk_index == state.chunk_index && !tag.is_last_chunk
                &&& one.after matches Some(payload) && payload.members()["ddl_type"@]
                    == Json::Text("READ_SCHEMA"@) && payload.members()["result_schema"@]
                    == schema::shape_json(
                    schema::catalog_shape(
                        parser::configured_table(table.snapshot.table).0,
                        parser::configured_table(table.snapshot.table).1,
                        table.columns,
                        table.keys,
                    ),
                )
            })
            &&& next.tables[place].snapshot == table.snapshot
            &&& next.tables[place].rows == table.rows
            &&& next.tables[place].next_row == table.next_row
            &&& next.tables[place].keys == table.keys
            &&& next.current == state.current
            &&& next.emitted == state.emitted
            &&& next.emitted_in_run == state.emitted_in_run
            &&& next.chunk_index == state.chunk_index
            &&& next.tables.len() == state.tables.len()
            &&& forall|i: int|
                0 <= i < state.tables.len() && i != place ==> (#[trigger] next.tables[i])
                    == state.tables[i]
        }),
{
    let table = state.tables[state.current as int];
    let (next, all) = snapshot::announced(settings, state, events, now);
    if !table.announced && table.columns.len() > 0 {
        let ddl = schema::DdlView {
            ddl_type: schema::DDL_TYPE_READ_SCHEMA@,
            schema: snapshot::name_of(table).0,
            table: snapshot::name_of(table).1,
            statement: schema::observation(
                snapshot::name_of(table).0,
                snapshot::name_of(table).1,
                "the PostgreSQL catalog"@,
            ),
            result_schema: Some(snapshot::announced_shape(table)),
            ts: now,
        };
        schema_laws::schema_event_tells_the_statement(
            ddl,
            settings.source_name,
            lsn::lsn_text(settings.watermark),
            now,
        );
        assert(all.drop_last() =~= events);
    }
}

/// A chunk that is returned holds what was gathered, event for event. Only whether it is the last
/// one is added, to its last event, and only once every table is complete. A chunk that holds
/// anything is counted.
pub proof fn returned_chunk_is_what_was_gathered(
    settings: SnapSettings,
    state: SnapView,
    events: Seq<EventView>,
    requested: usize,
    now: u64,
)
    ensures
        ({
            let (filled, all, step) = snapshot::filled(settings, state, events, requested, now);
            let (next, held, action) = snapshot::gone_on(settings, state, events, requested, now);
            &&& next.tables == filled.tables
            &&& next.current == filled.current
            &&& next.emitted == filled.emitted
            &&& step is Fetch <==> action is Fetch
            &&& step is Fetch ==> held == all && next.chunk_index == filled.chunk_index
            &&& step matches StepView::Fetch { table_index, cursor, limit } ==> action == (
            ChunkActionView::Fetch { table_index, cursor, limit })
            &&& action matches ChunkActionView::Return(returned) ==> {
                &&& held.len() == 0
                &&& returned.len() == all.len()
                &&& forall|i: int|
                    0 <= i < all.len() ==> (EventView {
                        snapshot: all[i].snapshot,
                        ..#[trigger] returned[i]
                    }) == all[i]
                &&& forall|i: int|
                    0 <= i < all.len() - 1 ==> (#[trigger] returned[i]).snapshot
                        == all[i].snapshot
                &&& !snapshot::all_complete(filled.tables) ==> returned == all
                &&& all.len() > 0 && filled.chunk_index < u32::MAX ==> next.chunk_index
                    == filled.chunk_index + 1
                &&& all.len() == 0 ==> next.chunk_index == filled.chunk_index
            }
        }),
{
}

/// Whether a chunk of events has grown by some rows of a table, one event each and in order, and
/// holds at its start what it held.
pub open spec fn grown_by(
    before: Seq<Event>,
    after: Seq<Event>,
    settings: SnapSettings,
    state: SnapView,
    rows: Seq<(Vec<String>, serde_json::Value)>,
    now: u64,
) -> bool {
    &&& after.len() == before.len() + rows.len()
    &&& forall|i: int| 0 <= i < before.len() ==> (#[trigger] after[i])@ == before[i]@
    &&& forall|k: int|
        0 <= k < rows.len() ==> hands_over(
            after[before.len() + k]@,
            settings,
            state.chunk_index,
            state.tables[state.current as int],
            json::json((#[trigger] rows[k]).1),
            now,
        )
}

/// Whether a table's next read goes on behind the last of some rows.
pub open spec fn stands_behind(
    after: SnapView,
    place: int,
    rows: Seq<(Vec<String>, serde_json::Value)>,
) -> bool {
    rows.len() > 0 ==> after.tables[place].snapshot.cursor_position == Some(
        json::strings_text(text::texts(rows[rows.len() - 1].0@)),
    )
}

/// Taking in rows that the server gave adds an event for each of them to the chunk, in order, which
/// hands over that row, and moves the table's cursor behind the last one.
pub proof fn taken_rows_are_handed_over(
    rows: Vec<(Vec<String>, serde_json::Value)>,
    now: u64,
)
    ensures
        forall|handle: &mut PostgresSnapshotHandle, events: &mut Vec<Event>|
            (*handle).current_table < (*handle).tables@.len() && #[trigger] call_ensures(
                PostgresSnapshotHandle::take_live_rows,
                (handle, events, rows, now),
                (),
            ) ==> grown_by(
                (*events)@,
                (*final(events))@,
                (*handle).settings(),
                (*handle).progress(),
                rows@,
                now,
            ) && stands_behind(
                (*final(handle)).progress(),
                (*handle).current_table as int,
                rows@,
            ),
{
    assert forall|handle: &mut PostgresSnapshotHandle, events: &mut Vec<Event>|
        (*handle).current_table < (*handle).tables@.len() && #[trigger] call_ensures(
            PostgresSnapshotHandle::take_live_rows,
            (handle, events, rows, now),
            (),
        ) implies grown_by(
        (*events)@,
        (*final(events))@,
        (*handle).settings(),
        (*handle).progress(),
        rows@,
        now,
    ) && stands_behind(
                (*final(handle)).progress(),
                (*handle).current_table as int,
                rows@,
            ) by {
        let held = event::event_views((*events)@);
        let all = event::event_views((*final(events))@);
        let added = snapshot::live_events(
            (*handle).settings(),
            (*handle).progress(),
            rows@,
            now,
        );
        assert(all.len() == (*final(events))@.len());
        assert(held.len() == (*events)@.len());
        assert(added.len() == rows@.len());
        assert forall|i: int| 0 <= i < (*events)@.len() implies (#[trigger] (*final(events))@[i])@
            == (*events)@[i]@ by {
            assert(all[i] == held[i]);
            assert(all[i] == (*final(events))@[i]@);
            assert(held[i] == (*events)@[i]@);
        }
        assert forall|k: int| 0 <= k < rows@.len() implies hands_over(
            (*final(events))@[(*events)@.len() + k]@,
            (*handle).settings(),
            (*handle).progress().chunk_index,
            (*handle).progress().tables[(*handle).progress().current as int],
            json::json((#[trigger] rows@[k]).1),
            now,
        ) by {
            assert(all[held.len() + k] == added[k]);
            assert(all[held.len() + k] == (*final(events))@[(*events)@.len() + k]@);
        }
    }
}

} // verus!
