//! What holds of the incremental snapshot as a whole.
use vstd::prelude::*;
use crate::conditions;
use crate::event::{Event, EventView};
use crate::incremental::driver;
use crate::incremental::driver::{DriveStep, IncrementalSnapshotDriver, Phase, TableProgress};
use crate::incremental::fingerprint;
use crate::incremental::setup;
use crate::incremental::setup::DriverSetup;
use crate::incremental::state;
use crate::incremental::state::{IncrementalSnapshotState, TableStateView};
use crate::incremental::steps;
use crate::incremental::table::{EventMark, SnapshotTable};
use crate::json;
use crate::json::Json;
use crate::text;

verus! {

/// Log order is kept: what a batch delivers, followed by what is held back after it, is what was
/// held back before it followed by the batch.
pub proof fn log_order_is_kept(held: Seq<EventView>, batch: Seq<EventView>, split: int)
    requires
        0 <= split <= batch.len(),
        held.len() > 0 ==> split == 0,
    ensures
        batch.take(split) + (held + batch.skip(split)) == held + batch,
{
    assert(batch.take(split) + (held + batch.skip(split)) =~= held + batch);
}

/// A row that survives has an identity that nothing superseded.
pub proof fn surviving_row_was_not_superseded(
    rows: Seq<(String, Event)>,
    overrides: Seq<Seq<char>>,
    event: Event,
)
    requires
        driver::surviving(rows, overrides).contains(event),
    ensures
        exists|i: int|
            0 <= i < rows.len() && (#[trigger] rows[i]).1 == event && !overrides.contains(
                rows[i].0@,
            ),
    decreases rows.len(),
{
    if rows.len() > 0 {
        let before = driver::surviving(rows.drop_last(), overrides);
        if before.contains(event) {
            surviving_row_was_not_superseded(rows.drop_last(), overrides, event);
            let i = choose|i: int|
                0 <= i < rows.drop_last().len() && (#[trigger] rows.drop_last()[i]).1 == event
                    && !overrides.contains(rows.drop_last()[i].0@);
            assert(rows[i].1 == event);
        } else {
            let all = driver::surviving(rows, overrides);
            let k = choose|k: int| 0 <= k < all.len() && all[k] == event;
            if k < before.len() {
                assert(before[k] == event);
            }
            assert(rows[rows.len() - 1].1 == event);
        }
    }
}

/// A row whose identity nothing superseded survives.
pub proof fn unsuperseded_row_survives(
    rows: Seq<(String, Event)>,
    overrides: Seq<Seq<char>>,
    place: int,
)
    requires
        0 <= place < rows.len(),
        !overrides.contains(rows[place].0@),
    ensures
        driver::surviving(rows, overrides).contains(rows[place].1),
    decreases rows.len(),
{
    let before = driver::surviving(rows.drop_last(), overrides);
    let all = driver::surviving(rows, overrides);
    if place == rows.len() - 1 {
        assert(all.last() == rows[place].1);
    } else {
        unsuperseded_row_survives(rows.drop_last(), overrides, place);
        let k = choose|k: int| 0 <= k < before.len() && before[k] == rows.drop_last()[place].1;
        assert(all[k] == rows[place].1);
    }
}

/// Looking at a batch keeps the chunk's rows under their identities, loses no event and forgets
/// no superseded identity.
pub proof fn collecting_keeps_the_chunk<P>(
    chunk: Seq<(Seq<char>, EventView)>,
    index: Map<Seq<char>, usize>,
    overrides: Seq<Seq<char>>,
    events: Seq<EventView>,
    marks: Seq<Option<EventMark<P>>>,
    schema: Seq<char>,
    name: Seq<char>,
)
    requires
        events.len() == marks.len(),
        driver::index_fits(chunk, index),
    ensures
        ({
            let all = driver::collected(chunk, index, overrides, events, marks, schema, name);
            &&& all.events.len() == events.len()
            &&& all.chunk.len() == chunk.len()
            &&& forall|i: int| 0 <= i < chunk.len() ==> (#[trigger] all.chunk[i]).0 == chunk[i].0
            &&& forall|id: Seq<char>| #[trigger]
                overrides.contains(id) ==> all.overrides.contains(id)
            &&& driver::index_fits(all.chunk, index)
        }),
    decreases events.len(),
{
    if events.len() > 0 {
        collecting_keeps_the_chunk(
            chunk,
            index,
            overrides,
            events.drop_last(),
            marks.drop_last(),
            schema,
            name,
        );
        let before = driver::collected(
            chunk,
            index,
            overrides,
            events.drop_last(),
            marks.drop_last(),
            schema,
            name,
        );
        let all = driver::collected(chunk, index, overrides, events, marks, schema, name);
        if driver::supersedes(events.last(), marks.last(), schema, name) {
            lemma_absorbed(before.chunk, index, before.overrides, events.last());
            let one = driver::absorbed(before.chunk, index, before.overrides, events.last());
            assert forall|i: int| 0 <= i < chunk.len() implies (#[trigger] all.chunk[i]).0
                == chunk[i].0 by {
                assert(one.chunk[i].0 == before.chunk[i].0);
            }
            assert forall|id: Seq<char>| #[trigger] overrides.contains(id) implies all.overrides.contains(
                id,
            ) by {
                assert(before.overrides.contains(id));
            }
        }
    }
}

proof fn lemma_with_id(ids: Seq<Seq<char>>, id: Seq<char>)
    ensures
        driver::with_id(ids, id).contains(id),
        forall|other: Seq<char>| #[trigger]
            ids.contains(other) ==> driver::with_id(ids, id).contains(other),
{
    let all = driver::with_id(ids, id);
    if !ids.contains(id) {
        assert(all[ids.len() as int] == id);
        assert forall|other: Seq<char>| #[trigger] ids.contains(other) implies all.contains(
            other,
        ) by {
            let k = choose|k: int| 0 <= k < ids.len() && ids[k] == other;
            assert(all[k] == other);
        }
    }
}

pub(crate) proof fn lemma_absorbed(
    chunk: Seq<(Seq<char>, EventView)>,
    index: Map<Seq<char>, usize>,
    overrides: Seq<Seq<char>>,
    event: EventView,
)
    requires
        driver::index_fits(chunk, index),
    ensures
        ({
            let one = driver::absorbed(chunk, index, overrides, event);
            &&& one.events.len() == 1
            &&& one.chunk.len() == chunk.len()
            &&& forall|i: int| 0 <= i < chunk.len() ==> (#[trigger] one.chunk[i]).0 == chunk[i].0
            &&& forall|id: Seq<char>| #[trigger]
                overrides.contains(id) ==> one.overrides.contains(id)
            &&& driver::index_fits(one.chunk, index)
            &&& fingerprint::event_identity(event) matches Some(id) ==> one.overrides.contains(id)
        }),
{
    let one = driver::absorbed(chunk, index, overrides, event);
    if let Some(id) = fingerprint::event_identity(event) {
        lemma_with_id(overrides, id);
    }
    assert forall|i: int| 0 <= i < one.chunk.len() implies index.contains_key(
        #[trigger] one.chunk[i].0,
    ) by {
        assert(one.chunk[i].0 == chunk[i].0);
        assert(index.contains_key(chunk[i].0));
    }
}

/// The row of every event that supersedes its chunk row is noted as superseded, so that the chunk
/// row, which is older than the event, is not emitted.
pub proof fn superseding_event_is_noted<P>(
    chunk: Seq<(Seq<char>, EventView)>,
    index: Map<Seq<char>, usize>,
    overrides: Seq<Seq<char>>,
    events: Seq<EventView>,
    marks: Seq<Option<EventMark<P>>>,
    schema: Seq<char>,
    name: Seq<char>,
    place: int,
    id: Seq<char>,
)
    requires
        events.len() == marks.len(),
        driver::index_fits(chunk, index),
        0 <= place < events.len(),
        driver::supersedes(events[place], marks[place], schema, name),
        fingerprint::event_identity(events[place]) == Some(id),
    ensures
        driver::collected(
            chunk,
            index,
            overrides,
            events,
            marks,
            schema,
            name,
        ).overrides.contains(id),
    decreases events.len(),
{
    let before = driver::collected(
        chunk,
        index,
        overrides,
        events.drop_last(),
        marks.drop_last(),
        schema,
        name,
    );
    collecting_keeps_the_chunk(
        chunk,
        index,
        overrides,
        events.drop_last(),
        marks.drop_last(),
        schema,
        name,
    );
    lemma_absorbed(before.chunk, index, before.overrides, events.last());
    if place < events.len() - 1 {
        superseding_event_is_noted(
            chunk,
            index,
            overrides,
            events.drop_last(),
            marks.drop_last(),
            schema,
            name,
            place,
            id,
        );
    }
}

/// Only the rows of superseding events are noted.
pub proof fn noted_row_was_superseded<P>(
    chunk: Seq<(Seq<char>, EventView)>,
    index: Map<Seq<char>, usize>,
    overrides: Seq<Seq<char>>,
    events: Seq<EventView>,
    marks: Seq<Option<EventMark<P>>>,
    schema: Seq<char>,
    name: Seq<char>,
    id: Seq<char>,
)
    requires
        events.len() == marks.len(),
        driver::collected(
            chunk,
            index,
            overrides,
            events,
            marks,
            schema,
            name,
        ).overrides.contains(id),
    ensures
        overrides.contains(id) || exists|i: int|
            0 <= i < events.len() && driver::supersedes(
                #[trigger] events[i],
                marks[i],
                schema,
                name,
            ) && fingerprint::event_identity(events[i]) == Some(id),
    decreases events.len(),
{
    if events.len() > 0 {
        let before = driver::collected(
            chunk,
            index,
            overrides,
            events.drop_last(),
            marks.drop_last(),
            schema,
            name,
        );
        let all = driver::collected(chunk, index, overrides, events, marks, schema, name);
        if before.overrides.contains(id) {
            noted_row_was_superseded(
                chunk,
                index,
                overrides,
                events.drop_last(),
                marks.drop_last(),
                schema,
                name,
                id,
            );
            if !overrides.contains(id) {
                let i = choose|i: int|
                    0 <= i < events.drop_last().len() && driver::supersedes(
                        #[trigger] events.drop_last()[i],
                        marks.drop_last()[i],
                        schema,
                        name,
                    ) && fingerprint::event_identity(events.drop_last()[i]) == Some(id);
                assert(events[i] == events.drop_last()[i]);
            }
        } else {
            let last = events.len() - 1;
            assert(driver::supersedes(events[last], marks[last], schema, name));
            let theirs = fingerprint::event_identity(events.last())->0;
            assert(all.overrides == driver::with_id(before.overrides, theirs));
            let k = choose|k: int| 0 <= k < all.overrides.len() && all.overrides[k] == id;
            if k < before.overrides.len() {
                assert(before.overrides[k] == id);
            }
            assert(fingerprint::event_identity(events[last]) == Some(id));
        }
    }
}

/// A cursor becomes durable only once the last row of its chunk has been handed out: until then
/// no step of the driver changes any table.
pub proof fn cursor_waits_for_delivery<P>(tables: Seq<TableProgress>, phase: Phase<P>)
    requires
        !(phase matches Phase::ChunkEmit { events, .. } && events@.len() == 0),
    ensures
        steps::settled_tables(tables, phase) == tables,
{
}

/// A chunk that has been handed out in full moves the cursor to the chunk's end, counts the chunk
/// and its rows, and changes nothing else.
pub proof fn delivered_chunk_moves_the_cursor<P>(tables: Seq<TableProgress>, phase: Phase<P>)
    requires
        phase matches Phase::ChunkEmit { table_idx, events, .. } && events@.len() == 0 && table_idx
            < tables.len(),
    ensures
        phase matches Phase::ChunkEmit { table_idx, events, next_cursor, row_count } && ({
            let after = steps::settled_tables(tables, phase);
            let place = table_idx as int;
            &&& after.len() == tables.len()
            &&& forall|i: int| 0 <= i < tables.len() && i != place ==> after[i] == tables[i]
            &&& after[place].spec == tables[place].spec
            &&& next_cursor@.len() > 0 ==> after[place].pk_cursor == Some(next_cursor)
            &&& after[place].chunks_emitted >= tables[place].chunks_emitted
            &&& after[place].rows_emitted >= tables[place].rows_emitted
        }),
{
}

/// A paused driver reads no chunk, whatever phase it is in.
pub proof fn paused_driver_reads_no_chunk<P>(
    tables: Seq<TableProgress>,
    phase: Phase<P>,
    timeout_ms: u64,
)
    ensures
        !(steps::next_step(tables, phase, true, timeout_ms).1 is ReadChunk),
{
}

/// A chunk is read only of a table that is not complete.
pub proof fn only_incomplete_tables_are_read<P>(
    tables: Seq<TableProgress>,
    phase: Phase<P>,
    paused: bool,
    timeout_ms: u64,
)
    requires
        tables.len() <= usize::MAX,
    ensures
        steps::next_step(tables, phase, paused, timeout_ms).1 matches DriveStep::ReadChunk {
            table_idx,
        } ==> table_idx < tables.len() && !tables[table_idx as int].is_complete,
{
    lemma_first_incomplete(tables);
}

/// The driver stops reading chunks only once every table is complete.
pub proof fn no_table_is_stranded<P>(
    tables: Seq<TableProgress>,
    phase: Phase<P>,
    timeout_ms: u64,
    place: int,
)
    requires
        phase is ChunkPrepare,
        0 <= place < tables.len(),
        !tables[place].is_complete,
    ensures
        steps::next_step(tables, phase, false, timeout_ms).1 is ReadChunk,
{
    lemma_first_incomplete(tables);
    if driver::first_incomplete(tables) == tables.len() {
        lemma_all_complete(tables, place);
    }
}

proof fn lemma_first_incomplete(tables: Seq<TableProgress>)
    ensures
        0 <= driver::first_incomplete(tables) <= tables.len(),
        driver::first_incomplete(tables) < tables.len()
            ==> !tables[driver::first_incomplete(tables)].is_complete,
    decreases tables.len(),
{
    if tables.len() > 0 {
        lemma_first_incomplete(tables.drop_first());
    }
}

proof fn lemma_all_complete(tables: Seq<TableProgress>, place: int)
    requires
        driver::first_incomplete(tables) == tables.len(),
        0 <= place < tables.len(),
    ensures
        tables[place].is_complete,
    decreases tables.len(),
{
    lemma_first_incomplete(tables.drop_first());
    if place > 0 {
        lemma_all_complete(tables.drop_first(), place - 1);
        assert(tables.drop_first()[place - 1] == tables[place]);
    }
}

/// An abandoned run stays abandoned: a setup from its record resolves no table, configured or
/// recorded.
pub proof fn stop_survives_a_restart(setup: DriverSetup)
    requires
        setup.resume matches Some(record) && record.stopped,
    ensures
        setup.upcoming() is None,
{
}

/// The record of a driver gives back, for each table, its cursor and counters, provided that no
/// two tables share a name.
pub proof fn record_keeps_every_table<P>(d: IncrementalSnapshotDriver<P>, place: int)
    requires
        0 <= place < d.tables@.len(),
        forall|i: int, j: int|
            0 <= i < j < d.tables@.len() ==> (#[trigger] d.tables@[i]).spec.key_text() != (
            #[trigger] d.tables@[j]).spec.key_text(),
    ensures
        state::entry_of(d.state_view().tables, d.tables@[place].spec.key_text()) == Some(
            driver::progress_view(d.tables@[place]),
        ),
{
    let views = driver::progress_views(d.tables@);
    assert forall|i: int| 0 <= i < place implies (#[trigger] views[i]).table
        != d.tables@[place].spec.key_text() by {
        assert(views[i] == driver::progress_view(d.tables@[i]));
        assert(d.tables@[i].spec.key_text() != d.tables@[place].spec.key_text());
    }
    assert(views[place].table == d.tables@[place].spec.key_text());
    lemma_entry_place(views, d.tables@[place].spec.key_text(), place);
}

proof fn lemma_entry_place(views: Seq<TableStateView>, key: Seq<char>, place: int)
    requires
        0 <= place < views.len(),
        views[place].table == key,
        forall|i: int| 0 <= i < place ==> (#[trigger] views[i]).table != key,
    ensures
        state::entry_place(views, key) == place,
    decreases views.len(),
{
    if place > 0 {
        assert(views[0].table != key);
        assert forall|i: int| 0 <= i < place - 1 implies (#[trigger] views.drop_first()[i]).table
            != key by {
            assert(views.drop_first()[i] == views[i + 1]);
        }
        lemma_entry_place(views.drop_first(), key, place - 1);
    }
}

/// Requesting a table that is in progress changes nothing, so a repeated request is a no-op.
pub proof fn repeated_request_is_a_no_op(tables: Seq<TableProgress>, spec: SnapshotTable)
    ensures
        !driver::starts_work(driver::enqueued(tables, spec), spec),
        driver::enqueued(driver::enqueued(tables, spec), spec) == driver::enqueued(tables, spec),
{
    let key = spec.key_text();
    let after = driver::enqueued(tables, spec);
    let place = driver::table_place(tables, key);
    lemma_table_place(tables, key);
    if place >= tables.len() {
        assert forall|i: int| 0 <= i < tables.len() implies (#[trigger] after[i]).spec.key_text()
            != key by {
            assert(after[i] == tables[i]);
        }
        lemma_place_is(after, key, tables.len() as int);
    } else {
        assert forall|i: int| 0 <= i < place implies (#[trigger] after[i]).spec.key_text() != key by {
            assert(after[i] == tables[i]);
        }
        lemma_place_is(after, key, place);
    }
}

/// A request for one table leaves every other table as it is.
pub proof fn request_leaves_other_tables(
    tables: Seq<TableProgress>,
    spec: SnapshotTable,
    place: int,
)
    requires
        0 <= place < tables.len(),
        tables[place].spec.key_text() != spec.key_text(),
    ensures
        driver::enqueued(tables, spec).len() >= tables.len(),
        driver::enqueued(tables, spec)[place] == tables[place],
{
    lemma_table_place(tables, spec.key_text());
}

/// A request never rewinds a table that is in progress.
pub proof fn request_leaves_tables_in_progress(
    tables: Seq<TableProgress>,
    spec: SnapshotTable,
    place: int,
)
    requires
        0 <= place < tables.len(),
        !tables[place].is_complete,
    ensures
        driver::enqueued(tables, spec)[place] == tables[place],
{
    lemma_table_place(tables, spec.key_text());
}

proof fn lemma_table_place(tables: Seq<TableProgress>, key: Seq<char>)
    ensures
        0 <= driver::table_place(tables, key) <= tables.len(),
        driver::table_place(tables, key) < tables.len()
            ==> tables[driver::table_place(tables, key)].spec.key_text() == key,
        forall|i: int|
            0 <= i < driver::table_place(tables, key) ==> (#[trigger] tables[i]).spec.key_text()
                != key,
    decreases tables.len(),
{
    if tables.len() > 0 && tables[0].spec.key_text() != key {
        lemma_table_place(tables.drop_first(), key);
        assert forall|i: int| 0 <= i < driver::table_place(tables, key) implies (
        #[trigger] tables[i]).spec.key_text() != key by {
            if i > 0 {
                assert(tables.drop_first()[i - 1] == tables[i]);
            }
        }
    }
}

proof fn lemma_place_is(tables: Seq<TableProgress>, key: Seq<char>, place: int)
    requires
        0 <= place < tables.len(),
        tables[place].spec.key_text() == key,
        forall|i: int| 0 <= i < place ==> (#[trigger] tables[i]).spec.key_text() != key,
    ensures
        driver::table_place(tables, key) == place,
    decreases tables.len(),
{
    if place > 0 {
        assert(tables[0].spec.key_text() != key);
        assert forall|i: int| 0 <= i < place - 1 implies (
        #[trigger] tables.drop_first()[i]).spec.key_text() != key by {
            assert(tables.drop_first()[i] == tables[i + 1]);
        }
        lemma_place_is(tables.drop_first(), key, place - 1);
    }
}

/// The same row read under two generations has two offsets, so that a deliberate re-snapshot is
/// not taken for a replay.
pub proof fn generations_have_their_own_offsets(
    spec: SnapshotTable,
    source_name: Seq<char>,
    snapshot_id: Seq<char>,
    first: u32,
    second: u32,
    chunk_index: u32,
    other_chunk_index: u32,
    row: Json,
    other_row: Json,
    now: u64,
    later: u64,
)
    requires
        first != second,
    ensures
        driver::snapshot_event(
            spec,
            source_name,
            snapshot_id,
            first,
            chunk_index,
            row,
            now,
        ).source.offset != driver::snapshot_event(
            spec,
            source_name,
            snapshot_id,
            second,
            other_chunk_index,
            other_row,
            later,
        ).source.offset,
{
    let columns = text::texts(spec.pk_columns@);
    let lead = "incremental:"@;
    let a = text::decimal_text(first as nat);
    let b = text::decimal_text(second as nat);
    let tail_a = ":"@ + spec.qualified@ + ":"@ + fingerprint::row_fingerprint(
        spec.name@,
        columns,
        row,
    );
    let tail_b = ":"@ + spec.qualified@ + ":"@ + fingerprint::row_fingerprint(
        spec.name@,
        columns,
        other_row,
    );
    let x = lead + a + ":"@ + spec.qualified@ + ":"@ + fingerprint::row_fingerprint(
        spec.name@,
        columns,
        row,
    );
    let y = lead + b + ":"@ + spec.qualified@ + ":"@ + fingerprint::row_fingerprint(
        spec.name@,
        columns,
        other_row,
    );
    reveal_strlit(":");
    assert(x =~= lead + a + tail_a);
    assert(y =~= lead + b + tail_b);
    text::number_round_trip(first as nat, 10);
    text::number_round_trip(second as nat, 10);
    text::decimal_is_digits(first as nat);
    text::decimal_is_digits(second as nat);
    if x == y {
        let n = lead.len() as int;
        assert(x[n + a.len()] == ':');
        assert(y[n + b.len()] == ':');
        if a.len() < b.len() {
            assert(y[n + a.len()] == b[a.len() as int]);
        } else if b.len() < a.len() {
            assert(x[n + b.len()] == a[b.len() as int]);
        } else {
            assert(x.subrange(n, n + a.len()) =~= a);
            assert(y.subrange(n, n + b.len()) =~= b);
        }
    }
}

/// A restart takes up unfinished work where it stood: the record of a driver's table, handed to a
/// new setup, gives a table with the same cursor, the same counters and the same row filter. So it
/// does for every table that only the record knows, and for every configured one, but for a
/// configured table that was read without a filter and for which one is configured by now.
pub proof fn restart_keeps_the_filter<P>(
    before: IncrementalSnapshotDriver<P>,
    record: IncrementalSnapshotState,
    place: int,
    described: SnapshotTable,
    table_ref: Seq<char>,
    configured: Map<Seq<char>, Seq<char>>,
    after: TableProgress,
)
    requires
        record@ == before.state_view(),
        0 <= place < before.tables@.len(),
        !before.tables@[place].is_complete,
        forall|i: int, j: int|
            0 <= i < j < before.tables@.len() ==> (#[trigger] before.tables@[i]).spec.key_text()
                != (#[trigger] before.tables@[j]).spec.key_text(),
        described.key_text() == before.tables@[place].spec.key_text(),
        ({
            let entry = setup::recorded(Some(record), described.key_text());
            &&& setup::takes_up(after, entry)
            &&& {
                ||| setup::configured_as(after.spec, described, table_ref, configured, entry) && (
                before.tables@[place].spec.condition is Some || conditions::filter_for(
                    configured,
                    table_ref,
                    described.schema@,
                    described.name@,
                    None,
                ))
                ||| setup::adopted_as(after.spec, described, entry->0)
            }
        }),
    ensures
        driver::progress_view(after) == driver::progress_view(before.tables@[place]),
        text::text_option(after.spec.condition) == text::text_option(
            before.tables@[place].spec.condition,
        ),
{
    record_keeps_every_table(before, place);
}

} // verus!
