//! What an incremental snapshot works on: which tables, with which filters, from where on, and in
//! which order; and what identifies a row.
use vstd::prelude::*;
use crate::conditions;
use crate::error::Error;
use crate::event::{BeforeView, EventView};
use crate::incremental::driver;
use crate::incremental::driver::{
    CollectStep, DriveStep, IncrementalSnapshotDriver, Phase, TableProgress,
};
use crate::incremental::fingerprint;
use crate::incremental::repair;
use crate::incremental::setup;
use crate::incremental::setup::DriverSetup;
use crate::incremental::state;
use crate::incremental::state::{IncrementalSnapshotState, TableStateView};
use crate::incremental::steps;
use crate::incremental::table::{SnapshotTable, StreamPosition};
use crate::json;
use crate::json::Json;
use crate::text;

verus! {

// Rows

/// A row's identity is made of its table's name and the values of its key columns, all of them and
/// in the key's order; a column that the row lacks counts as null.
pub proof fn row_is_identified_by_its_key(
    table: Seq<char>,
    columns: Seq<Seq<char>>,
    row: Json,
    values: Seq<Json>,
)
    requires
        values.len() == columns.len(),
        forall|i: int|
            0 <= i < columns.len() ==> #[trigger] values[i] == (if row.members().contains_key(
                columns[i],
            ) {
                row.members()[columns[i]]
            } else {
                Json::Null
            }),
    ensures
        fingerprint::row_fingerprint(table, columns, row) == table + "|"@ + json::array_text(
            values,
        ),
{
    assert(fingerprint::key_values(columns, row) =~= values);
}

/// An event is about the row of its new image; one without a new image is about the row of its old
/// one, whether the log carries that row or its key alone. An event without a key or without an
/// image is about no row.
pub proof fn event_is_about_the_row_that_it_carries(
    one: EventView,
    columns: Seq<Seq<char>>,
    row: Json,
)
    requires
        columns.len() > 0,
        one.primary_key == Some(columns),
    ensures
        one.after == Some(row) ==> fingerprint::event_identity(one) == Some(
            fingerprint::row_fingerprint(one.table, columns, row),
        ),
        one.after is None && one.before == BeforeView::KeyOnly(row) ==> fingerprint::event_identity(
            one,
        ) == Some(fingerprint::row_fingerprint(one.table, columns, row)),
        one.after is None && (one.before matches BeforeView::Full { row: old, .. } && old == row)
            ==> fingerprint::event_identity(one) == Some(
            fingerprint::row_fingerprint(one.table, columns, row),
        ),
        one.after is None && one.before is Unavailable ==> fingerprint::event_identity(
            one,
        ) is None,
        fingerprint::event_identity(EventView { primary_key: None, ..one }) is None,
        fingerprint::event_identity(
            EventView { primary_key: Some(Seq::empty()), ..one },
        ) is None,
{
}

// Filters

/// A filter is a table's where its key is the reference that the operator wrote or the table's full
/// name, in whatever case. A table has none only where no filter is its own.
pub proof fn filter_is_found_by_reference_or_name(
    map: Map<Seq<char>, Seq<char>>,
    table_ref: Seq<char>,
    schema: Seq<char>,
    name: Seq<char>,
    found: Option<Seq<char>>,
    key: Seq<char>,
)
    requires
        conditions::filter_for(map, table_ref, schema, name, found),
    ensures
        map.contains_key(key) && (text::folded(key) == text::folded(table_ref) || text::folded(key)
            == text::folded(schema + "."@ + name)) ==> found is Some,
        found matches Some(filter) ==> exists|k: Seq<char>| #[trigger]
            map.contains_key(k) && map[k] == filter && (text::folded(k) == text::folded(table_ref)
                || text::folded(k) == text::folded(schema + "."@ + name)),
{
}

/// A request's own filter for a table goes before the configured one, which stands where the
/// request has none.
pub proof fn request_filter_goes_first(
    spec: SnapshotTable,
    described: SnapshotTable,
    table_ref: Seq<char>,
    asked: Map<Seq<char>, Seq<char>>,
    configured: Map<Seq<char>, Seq<char>>,
    key: Seq<char>,
)
    requires
        setup::request_filter(spec, described, table_ref, asked, configured),
    ensures
        asked.contains_key(key) && text::folded(key) == text::folded(table_ref) ==> (
        spec.condition matches Some(filter) && exists|k: Seq<char>| #[trigger]
            asked.contains_key(k) && asked[k] == filter@),
        asked.dom() =~= Set::empty() && configured.dom() =~= Set::empty() ==> spec.condition is None,
        asked.dom() =~= Set::empty() && configured.contains_key(key) && text::folded(key)
            == text::folded(table_ref) ==> (spec.condition matches Some(filter) && exists|
            k: Seq<char>,
        | #[trigger] configured.contains_key(k) && configured[k] == filter@),
{
    if asked.contains_key(key) && text::folded(key) == text::folded(table_ref) {
        assert(conditions::names_table(key, table_ref, described.schema@, described.name@));
    }
    if configured.contains_key(key) && text::folded(key) == text::folded(table_ref) {
        assert(conditions::names_table(key, table_ref, described.schema@, described.name@));
    }
}

// Setup

/// A setup asks for the configured tables first, in their order, and then for each table of the
/// record that is unfinished and not asked for yet. After those it asks for none.
pub proof fn setup_asks_for_each_table(one: DriverSetup, entry: int)
    requires
        one.wf(),
        !(one.resume matches Some(record) && record.stopped),
    ensures
        one.configured_seen < one.config.tables@.len() ==> one.upcoming() == Some(
            one.config.tables@[one.configured_seen as int]@,
        ),
        one.configured_seen == one.config.tables@.len() && one.recorded_seen <= entry
            < one.entries().len() && !one.entries()[entry].is_complete && (forall|i: int|
            0 <= i < one.tables@.len() ==> (#[trigger] one.tables@[i]).spec.key_text()
                != one.entries()[entry].table) ==> one.upcoming() is Some,
        one.configured_seen == one.config.tables@.len() && (one.upcoming() matches Some(key))
            ==> exists|i: int|
            one.recorded_seen <= i < one.entries().len() && (#[trigger] one.entries()[i]).table
                == one.upcoming()->0 && !one.entries()[i].is_complete,
{
    lemma_next_adoptable(one, one.recorded_seen as int);
    if one.configured_seen == one.config.tables@.len() && one.recorded_seen <= entry
        < one.entries().len() && !one.entries()[entry].is_complete && (forall|i: int|
        0 <= i < one.tables@.len() ==> (#[trigger] one.tables@[i]).spec.key_text()
            != one.entries()[entry].table) {
        lemma_untracked(one.tables@, one.entries()[entry].table);
        assert(one.adoptable(entry));
    }
    if one.configured_seen == one.config.tables@.len() && one.upcoming() is Some {
        let place = one.next_adoptable(one.recorded_seen as int);
        assert(one.entries()[place].table == one.upcoming()->0);
    }
}

proof fn lemma_next_adoptable(one: DriverSetup, from: int)
    requires
        0 <= from <= one.entries().len(),
    ensures
        from <= one.next_adoptable(from) <= one.entries().len(),
        one.next_adoptable(from) < one.entries().len() ==> one.adoptable(one.next_adoptable(from)),
        forall|i: int| from <= i < one.next_adoptable(from) ==> !#[trigger] one.adoptable(i),
    decreases one.entries().len() - from,
{
    if from < one.entries().len() && !one.adoptable(from) {
        lemma_next_adoptable(one, from + 1);
    }
}

proof fn lemma_untracked(tables: Seq<TableProgress>, key: Seq<char>)
    requires
        forall|i: int| 0 <= i < tables.len() ==> (#[trigger] tables[i]).spec.key_text() != key,
    ensures
        driver::table_place(tables, key) == tables.len(),
    decreases tables.len(),
{
    if tables.len() > 0 {
        let less = tables.drop_first();
        assert(tables[0].spec.key_text() != key);
        assert forall|i: int| 0 <= i < less.len() implies (#[trigger] less[i]).spec.key_text()
            != key by {
            assert(tables[i + 1] == less[i]);
        }
        lemma_untracked(less, key);
    }
}

/// A table that the record knows goes on from the record's cursor with the record's counts; one that
/// it does not know starts at the beginning.
pub proof fn record_is_taken_up(after: TableProgress, entry: TableStateView)
    ensures
        setup::takes_up(after, Some(entry)) <==> (state::cursor_view(after.pk_cursor)
            == entry.pk_cursor && after.is_complete == entry.is_complete && after.chunks_emitted
            == entry.chunks_emitted && after.rows_emitted == entry.rows_emitted),
        setup::takes_up(after, None) <==> (after.pk_cursor is None && !after.is_complete
            && after.chunks_emitted == 0 && after.rows_emitted == 0),
{
}

/// The record's entry for a table is the one under the table's name.
pub proof fn record_is_looked_up_by_name(tables: Seq<TableStateView>, place: int)
    requires
        0 <= place < tables.len(),
        forall|i: int| 0 <= i < place ==> (#[trigger] tables[i]).table != tables[place].table,
    ensures
        state::entry_of(tables, tables[place].table) == Some(tables[place]),
    decreases tables.len(),
{
    if place > 0 {
        let less = tables.drop_first();
        assert(tables[0].table != tables[place].table);
        assert forall|i: int| 0 <= i < place - 1 implies (#[trigger] less[i]).table
            != less[place - 1].table by {
            assert(tables[i + 1] == less[i]);
        }
        record_is_looked_up_by_name(less, place - 1);
        lemma_entry_bound(less, tables[place].table);
    }
}

proof fn lemma_entry_bound(tables: Seq<TableStateView>, key: Seq<char>)
    ensures
        0 <= state::entry_place(tables, key) <= tables.len(),
    decreases tables.len(),
{
    if tables.len() > 0 {
        lemma_entry_bound(tables.drop_first(), key);
    }
}

/// A snapshot keeps the identity that its record names, and gets one of its own, made from the
/// time, where the record names none.
pub proof fn identity_outlives_a_restart(resume: Option<IncrementalSnapshotState>, now: u64)
    ensures
        resume matches Some(record) && record.snapshot_id@.len() > 0 ==> setup::snapshot_identity(
            resume,
            now,
        ) == (resume->0).snapshot_id@,
        resume is None ==> setup::snapshot_identity(resume, now) == "incremental-"@
            + text::decimal_text(now as nat),
{
}

// Requests and order

/// A requested table is read from the start, with the request's description of it: it is added where
/// it was not tracked, and read again where it was complete.
pub proof fn requested_table_starts_afresh(tables: Seq<TableProgress>, spec: SnapshotTable)
    requires
        driver::starts_work(tables, spec),
    ensures
        exists|place: int|
            0 <= place < driver::enqueued(tables, spec).len() && ({
                let one = #[trigger] driver::enqueued(tables, spec)[place];
                &&& one.spec == spec
                &&& one.pk_cursor is None
                &&& !one.is_complete
                &&& one.chunks_emitted == 0
                &&& one.rows_emitted == 0
            }),
        forall|i: int|
            0 <= i < tables.len() ==> (#[trigger] tables[i]).spec.key_text() != spec.key_text() ==>
                driver::enqueued(tables, spec)[i] == tables[i],
        driver::enqueued(tables, spec).len() <= tables.len() + 1,
{
    let key = spec.key_text();
    lemma_tracked(tables, key);
    let place = driver::table_place(tables, key);
    let after = driver::enqueued(tables, spec);
    if place >= tables.len() {
        assert(after[tables.len() as int].spec == spec);
    } else {
        assert(after[place].spec == spec);
    }
}

proof fn lemma_tracked(tables: Seq<TableProgress>, key: Seq<char>)
    ensures
        0 <= driver::table_place(tables, key) <= tables.len(),
        driver::table_place(tables, key) < tables.len() ==> tables[driver::table_place(
            tables,
            key,
        )].spec.key_text() == key,
    decreases tables.len(),
{
    if tables.len() > 0 && tables[0].spec.key_text() != key {
        lemma_tracked(tables.drop_first(), key);
    }
}

/// Reading goes on with the table that it stands at for as long as that has rows to read, and then
/// with the first one in order that has; a paused driver reads none.
pub proof fn tables_are_read_one_after_another<P>(
    tables: Seq<TableProgress>,
    table_idx: usize,
    timeout_ms: u64,
    place: usize,
)
    requires
        place < tables.len(),
        !tables[place as int].is_complete,
        forall|i: int| 0 <= i < place ==> (#[trigger] tables[i]).is_complete,
    ensures
        table_idx < tables.len() && !tables[table_idx as int].is_complete ==> steps::next_step(
            tables,
            Phase::<P>::ChunkPrepare { table_idx },
            false,
            timeout_ms,
        ).1 == (DriveStep::ReadChunk { table_idx }),
        table_idx >= tables.len() || tables[table_idx as int].is_complete ==> steps::next_step(
            tables,
            Phase::<P>::ChunkPrepare { table_idx },
            false,
            timeout_ms,
        ).1 == (DriveStep::ReadChunk { table_idx: place }),
        steps::next_step(tables, Phase::<P>::ChunkPrepare { table_idx }, true, timeout_ms).1 == (
        DriveStep::PassThrough { timeout_ms }),
        steps::next_step(tables, Phase::<P>::Done, false, timeout_ms).1 == (
        DriveStep::PassThrough { timeout_ms }),
{
    lemma_first_is(tables, place as int);
}

proof fn lemma_first_is(tables: Seq<TableProgress>, place: int)
    requires
        0 <= place < tables.len(),
        !tables[place].is_complete,
        forall|i: int| 0 <= i < place ==> (#[trigger] tables[i]).is_complete,
    ensures
        driver::first_incomplete(tables) == place,
    decreases tables.len(),
{
    if place > 0 {
        let less = tables.drop_first();
        assert(tables[0].is_complete);
        assert(less[place - 1] == tables[place]);
        assert forall|i: int| 0 <= i < place - 1 implies (#[trigger] less[i]).is_complete by {
            assert(tables[i + 1] == less[i]);
        }
        lemma_first_is(less, place - 1);
    }
}

/// Pausing and resuming change nothing but whether chunks are read, and a resumed driver that has
/// work outstanding takes it up.
pub proof fn pausing_loses_nothing<P>(
    before: IncrementalSnapshotDriver<P>,
    paused: bool,
    after: IncrementalSnapshotDriver<P>,
    place: int,
)
    requires
        steps::pause_set(before, paused, after),
        0 <= place < before.tables@.len(),
    ensures
        after.paused == paused,
        after.tables == before.tables,
        after.deferred == before.deferred,
        after.stopped == before.stopped,
        after.generation == before.generation,
        after.snapshot_id == before.snapshot_id,
        paused || !(before.phase is Done) ==> after.phase == before.phase,
        !paused && before.phase is Done && !before.tables@[place].is_complete ==> (
        after.phase matches Phase::ChunkPrepare { table_idx } && table_idx < before.tables@.len()
            && !before.tables@[table_idx as int].is_complete),
{
    lemma_some_incomplete(before.tables@, place);
    assert(before.tables@.len() == before.tables.len());
}

proof fn lemma_some_incomplete(tables: Seq<TableProgress>, place: int)
    requires
        0 <= place < tables.len(),
    ensures
        !tables[place].is_complete ==> 0 <= driver::first_incomplete(tables) <= place
            && !tables[driver::first_incomplete(tables)].is_complete,
    decreases tables.len(),
{
    if tables[0].is_complete && place > 0 {
        let less = tables.drop_first();
        assert(less[place - 1] == tables[place]);
        lemma_some_incomplete(less, place - 1);
    }
}

// Superseded rows

/// An event that supersedes a chunk row goes out with its omitted values filled in from that row,
/// and the row is kept up to date: under each column stands the event's value where the event has
/// one, and what stood there before where it has none. The row is not handed out any more.
pub proof fn superseding_event_is_completed_from_the_chunk(
    chunk: Seq<(Seq<char>, EventView)>,
    index: Map<Seq<char>, usize>,
    overrides: Seq<Seq<char>>,
    one: EventView,
    id: Seq<char>,
    shadow: Map<Seq<char>, Json>,
    column: Seq<char>,
)
    requires
        fingerprint::event_identity(one) == Some(id),
        index.contains_key(id),
        index[id] < chunk.len(),
        chunk[index[id] as int].1.after == Some(Json::Object(shadow)),
    ensures
        ({
            let place = index[id] as int;
            let done = driver::absorbed(chunk, index, overrides, one);
            let sent = repair::repaired(one, shadow);
            &&& done.events == seq![sent]
            &&& done.overrides.contains(id)
            &&& done.chunk.len() == chunk.len()
            &&& done.chunk[place].0 == chunk[place].0
            &&& done.chunk[place].1.after matches Some(kept) && ({
                let news = match sent.after {
                    Some(row) => row.members(),
                    None => Map::empty(),
                };
                &&& news.contains_key(column) ==> kept.members().contains_key(column)
                    && kept.members()[column] == news[column]
                &&& !news.contains_key(column) && shadow.contains_key(column)
                    ==> kept.members().contains_key(column) && kept.members()[column]
                    == shadow[column]
                &&& !news.contains_key(column) && !shadow.contains_key(column)
                    ==> !kept.members().contains_key(column)
            })
            &&& forall|i: int|
                0 <= i < chunk.len() && i != place ==> (#[trigger] done.chunk[i]) == chunk[i]
        }),
{
    let done = driver::absorbed(chunk, index, overrides, one);
    if !overrides.contains(id) {
        assert(done.overrides[overrides.len() as int] == id);
    }
}

/// An event about a row that the chunk does not have, or about no row, goes out as it came and
/// leaves the chunk as it is.
pub proof fn event_about_another_row_goes_out_as_it_came(
    chunk: Seq<(Seq<char>, EventView)>,
    index: Map<Seq<char>, usize>,
    overrides: Seq<Seq<char>>,
    one: EventView,
)
    requires
        fingerprint::event_identity(one) matches Some(id) ==> !index.contains_key(id),
    ensures
        driver::absorbed(chunk, index, overrides, one).events == seq![one],
        driver::absorbed(chunk, index, overrides, one).chunk == chunk,
        fingerprint::event_identity(one) is None ==> driver::absorbed(
            chunk,
            index,
            overrides,
            one,
        ).overrides == overrides,
{
}

/// A stream that has gone quiet ends the wait for a chunk once it stands at the chunk's high
/// watermark or past it, and not before: until then the chunk stays as it is and nothing goes out.
pub proof fn quiet_stream_ends_the_wait_at_the_high_watermark<P: StreamPosition>(
    before: IncrementalSnapshotDriver<P>,
    position: P,
    step: CollectStep,
    after: IncrementalSnapshotDriver<P>,
    high: P,
)
    requires
        steps::quieted(before, position, step, after),
        before.phase matches Phase::ChunkCollect { high_watermark, .. } && high_watermark == high,
    ensures
        after.tables == before.tables,
        after.deferred == before.deferred,
        position.rank() >= high.rank() ==> after.phase is ChunkEmit && step is Continue,
        position.rank() < high.rank() ==> after.phase == before.phase && (
        step matches CollectStep::Deliver(none) && none@.len() == 0),
{
}

/// A recorded cursor fits a table exactly where it has one value for each column of the table's key.
pub proof fn cursor_has_a_value_for_each_key_column(
    entry: TableStateView,
    spec: SnapshotTable,
)
    ensures
        entry.pk_cursor matches Some(cursor) ==> (setup::cursor_fits(Some(entry), spec)
            <==> cursor.len() == spec.pk_columns@.len()),
        entry.pk_cursor is None ==> setup::cursor_fits(Some(entry), spec),
        setup::cursor_fits(None, spec),
{
}

/// The columns that an event still lacks once it has been completed are those that one of its images
/// lacked and the row did not have either.
pub proof fn columns_still_lacking_were_not_in_the_row(
    one: EventView,
    shadow: Map<Seq<char>, Json>,
    column: Seq<char>,
)
    ensures
        repair::unfilled_columns(one, shadow).contains(column) <==> (!shadow.contains_key(column)
            && (lacks_before(one, column) || lacks_after(one, column))),
{
    let before = repair::unfilled_before(one.before, shadow);
    let after = match one.after {
        Some(Json::Object(image)) => repair::unfilled(one.unavailable_columns, shadow),
        _ => Seq::empty(),
    };
    let all = before + after;
    lemma_unfilled(one.unavailable_columns, shadow, column);
    if let BeforeView::Full { row: Json::Object(image), unavailable_columns } = one.before {
        lemma_unfilled(unavailable_columns, shadow, column);
    }
    if all.contains(column) {
        let k = choose|k: int| 0 <= k < all.len() && all[k] == column;
        if k < before.len() {
            assert(before[k] == column);
            assert(before.contains(column));
        } else {
            assert(after[k - before.len()] == column);
            assert(after.contains(column));
        }
    }
    if before.contains(column) {
        let k = choose|k: int| 0 <= k < before.len() && before[k] == column;
        assert(all[k] == column);
    }
    if after.contains(column) {
        let k = choose|k: int| 0 <= k < after.len() && after[k] == column;
        assert(all[before.len() + k] == column);
    }
}

/// Whether the old image of an event, a whole row, lacks a column.
pub open spec fn lacks_before(one: EventView, column: Seq<char>) -> bool {
    one.before matches BeforeView::Full { row, unavailable_columns } && row is Object
        && unavailable_columns.contains(column)
}

/// Whether the new image of an event lacks a column.
pub open spec fn lacks_after(one: EventView, column: Seq<char>) -> bool {
    (one.after matches Some(row) && row is Object) && one.unavailable_columns.contains(column)
}

proof fn lemma_unfilled(
    columns: Seq<Seq<char>>,
    shadow: Map<Seq<char>, Json>,
    column: Seq<char>,
)
    ensures
        repair::unfilled(columns, shadow).contains(column) <==> (columns.contains(column)
            && !shadow.contains_key(column)),
{
    broadcast use vstd::seq_lib::group_filter_ensures;

    let wanted = |one: Seq<char>| !shadow.contains_key(one);
    let left = columns.filter(wanted);
    assert(repair::unfilled(columns, shadow) == left);
    if left.contains(column) {
        let k = choose|k: int| 0 <= k < left.len() && left[k] == column;
        columns.lemma_filter_pred(wanted, k);
        columns.lemma_filter_contains_rev(wanted, left[k]);
    }
    if columns.contains(column) && !shadow.contains_key(column) {
        let k = choose|k: int| 0 <= k < columns.len() && columns[k] == column;
        assert(wanted(columns[k]));
        assert(left.contains(columns[k]));
    }
}

/// A request for several tables is refused as a whole exactly where one of them was not described or
/// has no primary key, and the first such table is to blame.
pub proof fn one_unusable_table_refuses_the_request(
    described: Seq<Result<SnapshotTable, Error>>,
    place: int,
)
    requires
        0 <= place < described.len(),
    ensures
        described[place] is Err ==> setup::first_unusable(described) <= place,
        (described[place] matches Ok(spec) && spec.pk_columns@.len() == 0)
            ==> setup::first_unusable(described) <= place,
        0 <= setup::first_unusable(described) <= described.len(),
        setup::first_unusable(described) < described.len() ==> (described[setup::first_unusable(
            described,
        )] is Err || (described[setup::first_unusable(described)]->Ok_0).pk_columns@.len() == 0),
    decreases described.len(),
{
    let less = described.drop_first();
    if place > 0 {
        assert(less[place - 1] == described[place]);
        one_unusable_table_refuses_the_request(less, place - 1);
    } else if less.len() > 0 {
        one_unusable_table_refuses_the_request(less, 0);
    }
    let found = setup::first_unusable(described);
    if 0 < found < described.len() {
        assert(less[found - 1] == described[found]);
    }
}

/// Each table of a request that is taken up is the table as the catalog describes it.
pub proof fn requested_tables_are_as_described(
    specs: Seq<SnapshotTable>,
    described: Seq<Result<SnapshotTable, Error>>,
    refs: Seq<Seq<char>>,
    asked: Map<Seq<char>, Seq<char>>,
    configured: Map<Seq<char>, Seq<char>>,
    place: int,
)
    requires
        setup::request_resolved(specs, described, refs, asked, configured),
        0 <= place < described.len(),
    ensures
        specs.len() == described.len(),
        described[place] matches Ok(found) && {
            &&& specs[place].schema == found.schema
            &&& specs[place].name == found.name
            &&& specs[place].qualified == found.qualified
            &&& specs[place].pk_columns == found.pk_columns
            &&& specs[place].pk_types == found.pk_types
            &&& specs[place].columns == found.columns
            &&& setup::request_filter(specs[place], found, refs[place], asked, configured)
        },
{
    assert(setup::entry_resolved(
        specs[place],
        described[place],
        refs[place],
        asked,
        configured,
    ));
}

/// The tables of a request are taken up one after another, and as many count as started as were not
/// in progress when their turn came.
pub proof fn requested_tables_are_taken_up_in_order(
    tables: Seq<TableProgress>,
    specs: Seq<SnapshotTable>,
    one: SnapshotTable,
)
    ensures
        driver::enqueued_all(tables, Seq::empty()) == tables,
        driver::enqueued_all(tables, specs.push(one)) == driver::enqueued(
            driver::enqueued_all(tables, specs),
            one,
        ),
        driver::started(tables, Seq::empty()) == 0,
        driver::started(tables, specs.push(one)) == driver::started(tables, specs) + (
        if driver::starts_work(driver::enqueued_all(tables, specs), one) {
            1nat
        } else {
            0nat
        }),
{
    assert(specs.push(one).drop_last() =~= specs);
}

/// As many tables are abandoned by a stop as are not complete.
pub proof fn outstanding_tables_are_counted(tables: Seq<TableProgress>, one: TableProgress)
    ensures
        driver::incomplete_count(Seq::empty()) == 0,
        one.is_complete ==> driver::incomplete_count(tables.push(one)) == driver::incomplete_count(
            tables,
        ),
        !one.is_complete ==> driver::incomplete_count(tables.push(one))
            == driver::incomplete_count(tables) + 1,
{
    assert(tables.push(one).drop_last() =~= tables);
}

} // verus!
