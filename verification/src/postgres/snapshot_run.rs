//! What holds of a PostgreSQL bulk snapshot over all its chunks, where its rows are at hand.
use vstd::prelude::*;
use crate::event::{EventView, Operation};
use crate::postgres::snapshot;
use crate::postgres::snapshot::{
    ChunkActionView, SnapSettings, SnapView, TableView, DEFAULT_SNAPSHOT_CHUNK_SIZE,
};
use crate::postgres::snapshot_laws;

verus! {

/// The size of a chunk that is asked for with this size.
pub open spec fn size_of_chunk(chunk_size: usize) -> usize {
    if chunk_size == 0 {
        DEFAULT_SNAPSHOT_CHUNK_SIZE
    } else {
        chunk_size
    }
}

/// The state after a chunk, and its events, where no rows have to be fetched for it.
pub open spec fn one_chunk(
    settings: SnapSettings,
    state: SnapView,
    chunk_size: usize,
    now: u64,
) -> (SnapView, Seq<EventView>) {
    if snapshot::all_complete(state.tables) {
        (state, Seq::empty())
    } else {
        let (next, left, action) = snapshot::gone_on(
            settings,
            state,
            Seq::empty(),
            size_of_chunk(chunk_size),
            now,
        );
        match action {
            ChunkActionView::Return(events) => (next, events),
            _ => (next, Seq::empty()),
        }
    }
}

/// The state after chunks of some sizes, each asked for at some time, and their events.
pub open spec fn chunks(settings: SnapSettings, state: SnapView, asked: Seq<(usize, u64)>) -> (
    SnapView,
    Seq<Seq<EventView>>,
)
    decreases asked.len(),
{
    if asked.len() == 0 {
        (state, Seq::empty())
    } else {
        let (before, list) = chunks(settings, state, asked.drop_last());
        let (next, events) = one_chunk(settings, before, asked.last().0, asked.last().1);
        (next, list.push(events))
    }
}

/// The events of some chunks, one after the other.
pub open spec fn joined(list: Seq<Seq<EventView>>) -> Seq<EventView>
    decreases list.len(),
{
    if list.len() == 0 {
        Seq::empty()
    } else {
        joined(list.drop_last()) + list.last()
    }
}

/// The events of rows among some events, in order.
pub open spec fn row_part(events: Seq<EventView>) -> Seq<EventView>
    decreases events.len(),
{
    if events.len() == 0 {
        Seq::empty()
    } else if events.last().op == Operation::Read {
        row_part(events.drop_last()).push(events.last())
    } else {
        row_part(events.drop_last())
    }
}

/// The places of a table's rows, from the next on.
pub open spec fn table_places(index: int, table: TableView) -> Seq<(int, int)> {
    Seq::new(
        (table.rows.len() - table.next_row) as nat,
        |k: int| (index, table.next_row + k),
    )
}

/// The places of the rows that the tables from one on have not emitted yet: table by table, and
/// within a table in order.
pub open spec fn places_left(tables: Seq<TableView>, from: int) -> Seq<(int, int)>
    decreases tables.len() - from,
{
    if from < 0 || from >= tables.len() {
        Seq::empty()
    } else {
        table_places(from, tables[from]) + places_left(tables, from + 1)
    }
}

/// Whether an event is that of the row at a place.
pub open spec fn tells_row(one: EventView, place: (int, int), tables: Seq<TableView>) -> bool {
    &&& one.op == Operation::Read
    &&& 0 <= place.0 < tables.len()
    &&& 0 <= place.1 < tables[place.0].rows.len()
    &&& one.after == Some(tables[place.0].rows[place.1])
    &&& one.source.offset == snapshot::row_cursor(place.0 as nat, place.1)
}

/// Whether some events are those of the rows at some places, in order.
pub open spec fn tells(
    events: Seq<EventView>,
    places: Seq<(int, int)>,
    tables: Seq<TableView>,
) -> bool {
    &&& events.len() == places.len()
    &&& forall|k: int|
        0 <= k < events.len() ==> tells_row(#[trigger] events[k], places[k], tables)
}

/// Whether no table is read from the server.
pub open spec fn at_hand(tables: Seq<TableView>) -> bool {
    forall|i: int| 0 <= i < tables.len() ==> !(#[trigger] tables[i]).live
}

/// Whether every table from the current one on has a row left and is not complete.
pub open spec fn unread(state: SnapView) -> bool {
    forall|i: int|
        state.current <= i < state.tables.len() ==> !(
        #[trigger] state.tables[i]).snapshot.is_complete && state.tables[i].next_row
            < state.tables[i].rows.len()
}

/// Whether two lists of tables hold the same rows.
pub open spec fn same_rows(a: Seq<TableView>, b: Seq<TableView>) -> bool {
    &&& a.len() == b.len()
    &&& forall|i: int| 0 <= i < a.len() ==> (#[trigger] a[i]).rows == b[i].rows
}

/// Whether a snapshot is underway as it should be.
pub open spec fn sound(settings: SnapSettings, state: SnapView) -> bool {
    &&& snapshot_laws::in_place(settings, state)
    &&& snapshot_laws::done_behind(state)
    &&& at_hand(state.tables)
    &&& unread(state)
}

/// Whether an event belongs to a chunk that is not known to be the last.
pub open spec fn of_chunk(one: EventView, index: u32) -> bool {
    one.snapshot matches Some(tag) && tag.chunk_index == index && !tag.is_last_chunk
}

proof fn lemma_row_part_joined(a: Seq<EventView>, b: Seq<EventView>)
    ensures
        row_part(a + b) == row_part(a) + row_part(b),
    decreases b.len(),
{
    if b.len() == 0 {
        assert(a + b =~= a);
        assert(row_part(a) + row_part(b) =~= row_part(a));
    } else {
        lemma_row_part_joined(a, b.drop_last());
        assert((a + b).drop_last() =~= a + b.drop_last());
        assert((a + b).last() == b.last());
        assert(row_part(a) + row_part(b.drop_last()).push(b.last()) =~= (row_part(a) + row_part(
            b.drop_last(),
        )).push(b.last()));
    }
}

proof fn lemma_all_rows(events: Seq<EventView>)
    requires
        forall|k: int| 0 <= k < events.len() ==> (#[trigger] events[k]).op == Operation::Read,
    ensures
        row_part(events) == events,
    decreases events.len(),
{
    if events.len() == 0 {
        assert(row_part(events) =~= events);
    } else {
        assert forall|k: int| 0 <= k < events.drop_last().len() implies (
        #[trigger] events.drop_last()[k]).op == Operation::Read by {
            assert(events.drop_last()[k] == events[k]);
        }
        lemma_all_rows(events.drop_last());
        assert(events[events.len() - 1].op == Operation::Read);
        assert(row_part(events) =~= events);
    }
}

proof fn lemma_places_same(a: Seq<TableView>, b: Seq<TableView>, from: int)
    requires
        a.len() == b.len(),
        0 <= from,
        forall|i: int|
            from <= i < a.len() ==> (#[trigger] a[i]).rows == b[i].rows && a[i].next_row
                == b[i].next_row,
    ensures
        places_left(a, from) == places_left(b, from),
    decreases a.len() - from,
{
    if from < a.len() {
        assert(a[from].rows == b[from].rows);
        assert(table_places(from, a[from]) =~= table_places(from, b[from]));
        lemma_places_same(a, b, from + 1);
    }
}

proof fn lemma_tells_more(
    events: Seq<EventView>,
    places: Seq<(int, int)>,
    more: Seq<EventView>,
    more_places: Seq<(int, int)>,
    tables: Seq<TableView>,
)
    requires
        tells(events, places, tables),
        tells(more, more_places, tables),
    ensures
        tells(events + more, places + more_places, tables),
{
    let all = events + more;
    let list = places + more_places;
    assert forall|k: int| 0 <= k < all.len() implies tells_row(
        #[trigger] all[k],
        list[k],
        tables,
    ) by {
        if k < events.len() {
            assert(all[k] == events[k]);
        } else {
            assert(all[k] == more[k - events.len()]);
        }
    }
}

/// What holds once the current table is announced.
proof fn lemma_announced(
    settings: SnapSettings,
    state: SnapView,
    events: Seq<EventView>,
    now: u64,
    tables: Seq<TableView>,
) -> (told: Seq<EventView>)
    requires
        sound(settings, state),
        same_rows(state.tables, tables),
        state.current < state.tables.len(),
    ensures
        ({
            let (next, more) = snapshot::announced(settings, state, events, now);
            &&& sound(settings, next)
            &&& same_rows(next.tables, tables)
            &&& next.current == state.current
            &&& next.chunk_index == state.chunk_index
            &&& more == events + told
            &&& told.len() <= 1
            &&& row_part(told) == Seq::<EventView>::empty()
            &&& forall|k: int|
                0 <= k < told.len() ==> of_chunk(#[trigger] told[k], state.chunk_index)
            &&& forall|i: int|
                0 <= i < state.tables.len() ==> (#[trigger] next.tables[i]).next_row
                    == state.tables[i].next_row && next.tables[i].columns == state.tables[i].columns
            &&& state.tables[state.current as int].columns.len() == 0 ==> told.len() == 0
            &&& places_left(next.tables, state.current as int) == places_left(
                state.tables,
                state.current as int,
            )
        }),
{
    let place = state.current as int;
    snapshot_laws::lemma_announced_keeps(settings, state, events, now);
    let (next, more) = snapshot::announced(settings, state, events, now);
    let told = if more.len() > events.len() {
        seq![more.last()]
    } else {
        Seq::<EventView>::empty()
    };
    assert(more =~= events + told);
    assert(row_part(told) =~= Seq::<EventView>::empty()) by {
        if told.len() > 0 {
            assert(told.drop_last() =~= Seq::<EventView>::empty());
            assert(told.last().op != Operation::Read);
            assert(row_part(told) == row_part(told.drop_last()));
            assert(row_part(Seq::<EventView>::empty()) =~= Seq::<EventView>::empty());
        }
    }
    assert forall|i: int| 0 <= i < next.tables.len() implies !(#[trigger] next.tables[i]).live
        && next.tables[i].rows == tables[i].rows && next.tables[i].columns
        == state.tables[i].columns && next.tables[i].snapshot == state.tables[i].snapshot by {
        assert(!state.tables[i].live);
        assert(state.tables[i].rows == tables[i].rows);
    }
    assert(unread(next)) by {
        assert forall|i: int| next.current <= i < next.tables.len() implies !(
        #[trigger] next.tables[i]).snapshot.is_complete && next.tables[i].next_row
            < next.tables[i].rows.len() by {
            assert(!state.tables[i].snapshot.is_complete);
        }
    }
    assert(snapshot_laws::done_behind(next)) by {
        assert forall|i: int| 0 <= i < next.current implies (
        #[trigger] next.tables[i]).snapshot.is_complete by {
            assert(state.tables[i].snapshot.is_complete);
        }
    }
    lemma_places_same(next.tables, state.tables, place);
    told
}

/// What holds once rows of the current table are read.
proof fn lemma_rows_read(
    settings: SnapSettings,
    state: SnapView,
    count: int,
    now: u64,
    tables: Seq<TableView>,
)
    requires
        sound(settings, state),
        same_rows(state.tables, tables),
        state.current < state.tables.len(),
        0 <= count <= state.tables[state.current as int].rows.len()
            - state.tables[state.current as int].next_row,
    ensures
        ({
            let place = state.current as int;
            let table = state.tables[place];
            let rows = snapshot::row_events(settings, state, count, now);
            let here = Seq::new(count as nat, |k: int| (place, table.next_row + k));
            let read = snapshot::with_rows(state, count);
            let past = snapshot::past_table(read);
            &&& rows.len() == count
            &&& row_part(rows) == rows
            &&& tells(rows, here, tables)
            &&& forall|k: int|
                0 <= k < rows.len() ==> of_chunk(#[trigger] rows[k], state.chunk_index)
            &&& same_rows(read.tables, tables)
            &&& same_rows(past.tables, tables)
            &&& forall|i: int|
                0 <= i < state.tables.len() ==> (#[trigger] past.tables[i]).columns
                    == state.tables[i].columns
            &&& forall|i: int|
                0 <= i < state.tables.len() ==> (#[trigger] read.tables[i]).columns
                    == state.tables[i].columns
            &&& if table.next_row + count >= table.rows.len() {
                &&& sound(settings, past)
                &&& here + places_left(past.tables, place + 1) == places_left(state.tables, place)
            } else {
                &&& sound(settings, read)
                &&& here + places_left(read.tables, place) == places_left(state.tables, place)
            }
        }),
{
    let place = state.current as int;
    let table = state.tables[place];
    let rows = snapshot::row_events(settings, state, count, now);
    let from = table.next_row;
    let here = Seq::new(count as nat, |k: int| (place, from + k));
    let read = snapshot::with_rows(state, count);
    let past = snapshot::past_table(read);
    assert(!table.live);
    snapshot_laws::lemma_with_rows_keeps(settings, state, count);
    snapshot_laws::lemma_past_table_keeps(settings, read);
    assert forall|k: int| 0 <= k < rows.len() implies tells_row(
        #[trigger] rows[k],
        here[k],
        tables,
    ) by {
        assert(state.tables[place].rows == tables[place].rows);
    }
    lemma_all_rows(rows);
    assert forall|i: int| 0 <= i < state.tables.len() implies (#[trigger] read.tables[i]).rows
        == tables[i].rows && !read.tables[i].live && read.tables[i].columns
        == state.tables[i].columns && read.tables[i].snapshot.is_complete
        == state.tables[i].snapshot.is_complete by {
        assert(state.tables[i].rows == tables[i].rows);
        assert(!state.tables[i].live);
    }
    assert forall|i: int| 0 <= i < state.tables.len() implies (#[trigger] past.tables[i]).rows
        == tables[i].rows && !past.tables[i].live && past.tables[i].columns
        == state.tables[i].columns && past.tables[i].next_row == read.tables[i].next_row by {
        assert(read.tables[i].rows == tables[i].rows);
    }
    lemma_places_same(read.tables, state.tables, place + 1);
    lemma_places_same(past.tables, read.tables, place + 1);
    let rest = places_left(state.tables, place + 1);
    if from + count >= table.rows.len() {
        assert(here =~= table_places(place, table));
        assert(unread(past)) by {
            assert forall|i: int| past.current <= i < past.tables.len() implies !(
            #[trigger] past.tables[i]).snapshot.is_complete && past.tables[i].next_row
                < past.tables[i].rows.len() by {
                assert(!state.tables[i].snapshot.is_complete);
            }
        }
        assert(snapshot_laws::done_behind(past)) by {
            assert forall|i: int| 0 <= i < past.current implies (
            #[trigger] past.tables[i]).snapshot.is_complete by {
                if i < place {
                    assert(state.tables[i].snapshot.is_complete);
                }
            }
        }
    } else {
        assert(unread(read)) by {
            assert forall|i: int| read.current <= i < read.tables.len() implies !(
            #[trigger] read.tables[i]).snapshot.is_complete && read.tables[i].next_row
                < read.tables[i].rows.len() by {
                assert(!state.tables[i].snapshot.is_complete);
            }
        }
        assert(snapshot_laws::done_behind(read)) by {
            assert forall|i: int| 0 <= i < read.current implies (
            #[trigger] read.tables[i]).snapshot.is_complete by {
                assert(state.tables[i].snapshot.is_complete);
            }
        }
        let left = table_places(place, read.tables[place]);
        assert(read.tables[place].next_row == from + count);
        assert(table_places(place, table) =~= here + left);
        assert(here + (left + rest) =~= (here + left) + rest);
    }
}

proof fn lemma_of_chunk(a: Seq<EventView>, b: Seq<EventView>, index: u32)
    requires
        forall|k: int| 0 <= k < a.len() ==> of_chunk(#[trigger] a[k], index),
        forall|k: int| 0 <= k < b.len() ==> of_chunk(#[trigger] b[k], index),
    ensures
        forall|k: int| 0 <= k < (a + b).len() ==> of_chunk(#[trigger] (a + b)[k], index),
{
    assert forall|k: int| 0 <= k < (a + b).len() implies of_chunk(#[trigger] (a + b)[k], index) by {
        if k < a.len() {
            assert((a + b)[k] == a[k]);
        } else {
            assert((a + b)[k] == b[k - a.len()]);
        }
    }
}

/// Whether no table has declared columns, so that none is announced.
pub open spec fn bare(tables: Seq<TableView>) -> bool {
    forall|i: int| 0 <= i < tables.len() ==> (#[trigger] tables[i]).columns.len() == 0
}

/// What filling a chunk adds: the places of the rows, and the events.
#[verifier::spinoff_prover]
#[verifier::rlimit(40)]
proof fn lemma_filled(
    settings: SnapSettings,
    state: SnapView,
    events: Seq<EventView>,
    requested: usize,
    now: u64,
    tables: Seq<TableView>,
) -> (fresh: (Seq<(int, int)>, Seq<EventView>))
    requires
        sound(settings, state),
        same_rows(state.tables, tables),
        events.len() <= requested,
    ensures
        ({
            let (next, all, step) = snapshot::filled(settings, state, events, requested, now);
            let (places, more) = fresh;
            &&& step is Done
            &&& sound(settings, next)
            &&& same_rows(next.tables, tables)
            &&& next.chunk_index == state.chunk_index
            &&& all == events + more
            &&& tells(row_part(more), places, tables)
            &&& places + places_left(next.tables, next.current as int) == places_left(
                state.tables,
                state.current as int,
            )
            &&& all.len() <= requested
            &&& all.len() < requested ==> next.current >= next.tables.len()
            &&& events.len() < requested && state.current < state.tables.len() ==> more.len() > 0
            &&& forall|k: int|
                0 <= k < more.len() ==> of_chunk(#[trigger] more[k], state.chunk_index)
            &&& bare(state.tables) ==> row_part(more) == more && bare(next.tables)
        }),
    decreases state.tables.len() - state.current,
{
    let none = Seq::<(int, int)>::empty();
    let nothing = Seq::<EventView>::empty();
    if events.len() >= requested || state.current >= state.tables.len() {
        assert(events + nothing =~= events);
        assert(none + places_left(state.tables, state.current as int) =~= places_left(
            state.tables,
            state.current as int,
        ));
        (none, nothing)
    } else {
        let place = state.current as int;
        let told = lemma_announced(settings, state, events, now, tables);
        let (next, more) = snapshot::announced(settings, state, events, now);
        let table = next.tables[place];
        assert(!table.live);
        let count = snapshot::fitting(table, more.len() as int, requested as int);
        assert(table.next_row < table.rows.len());
        lemma_rows_read(settings, next, count, now, tables);
        let read = snapshot::with_rows(next, count);
        let rows = snapshot::row_events(settings, next, count, now);
        let all = more + rows;
        let here = Seq::new(count as nat, |k: int| (place, table.next_row + k));
        let added = told + rows;
        lemma_row_part_joined(told, rows);
        assert(row_part(added) =~= rows);
        assert(all =~= events + added);
        lemma_of_chunk(told, rows, state.chunk_index);
        assert(all.len() <= requested);
        assert(added.len() > 0);
        if bare(state.tables) {
            assert(state.tables[place].columns.len() == 0);
            assert(added =~= rows);
        }
        if table.next_row + count >= table.rows.len() {
            let past = snapshot::past_table(read);
            if bare(state.tables) {
                assert forall|i: int| 0 <= i < past.tables.len() implies (
                #[trigger] past.tables[i]).columns.len() == 0 by {
                    assert(state.tables[i].columns.len() == 0);
                    assert(next.tables[i].columns == state.tables[i].columns);
                }
            }
            let (later, last) = lemma_filled(settings, past, all, requested, now, tables);
            let end = snapshot::filled(settings, past, all, requested, now).0;
            lemma_row_part_joined(added, last);
            lemma_tells_more(rows, here, row_part(last), later, tables);
            let left = places_left(end.tables, end.current as int);
            assert((here + later) + left =~= here + (later + left));
            assert(all + last =~= events + (added + last));
            lemma_of_chunk(added, last, state.chunk_index);
            (here + later, added + last)
        } else {
            if bare(state.tables) {
                assert forall|i: int| 0 <= i < read.tables.len() implies (
                #[trigger] read.tables[i]).columns.len() == 0 by {
                    assert(state.tables[i].columns.len() == 0);
                    assert(next.tables[i].columns == state.tables[i].columns);
                }
            }
            (here, added)
        }
    }
}

/// What one chunk adds: the places of the rows.
proof fn lemma_one_chunk(
    settings: SnapSettings,
    state: SnapView,
    chunk_size: usize,
    now: u64,
    tables: Seq<TableView>,
) -> (places: Seq<(int, int)>)
    requires
        sound(settings, state),
        same_rows(state.tables, tables),
        state.chunk_index < u32::MAX,
    ensures
        ({
            let (next, events) = one_chunk(settings, state, chunk_size, now);
            let complete = snapshot::all_complete(next.tables);
            &&& sound(settings, next)
            &&& same_rows(next.tables, tables)
            &&& tells(row_part(events), places, tables)
            &&& places + places_left(next.tables, next.current as int) == places_left(
                state.tables,
                state.current as int,
            )
            &&& complete ==> next.current == next.tables.len()
            &&& events.len() <= size_of_chunk(chunk_size)
            &&& events.len() < size_of_chunk(chunk_size) ==> complete
            &&& if snapshot::all_complete(state.tables) {
                next == state && events.len() == 0
            } else {
                &&& events.len() > 0
                &&& next.chunk_index == state.chunk_index + 1
                &&& forall|k: int|
                    0 <= k < events.len() ==> ((#[trigger] events[k]).snapshot matches Some(tag)
                        && tag.chunk_index == state.chunk_index && tag.is_last_chunk == (complete
                        && k == events.len() - 1))
            }
            &&& bare(state.tables) ==> row_part(events) == events && bare(next.tables)
        }),
{
    if snapshot::all_complete(state.tables) {
        let none = Seq::<(int, int)>::empty();
        lemma_complete(settings, state);
        assert(none + places_left(state.tables, state.current as int) =~= places_left(
            state.tables,
            state.current as int,
        ));
        none
    } else {
        let requested = size_of_chunk(chunk_size);
        lemma_incomplete(settings, state);
        let (places, more) = lemma_filled(
            settings,
            state,
            Seq::empty(),
            requested,
            now,
            tables,
        );
        let (filled, all, step) = snapshot::filled(settings, state, Seq::empty(), requested, now);
        let complete = snapshot::all_complete(filled.tables);
        assert(all =~= more);
        snapshot_laws::only_the_end_is_marked(all, complete);
        lemma_closed_rows(all, complete, places, tables);
        if complete {
            lemma_complete(settings, filled);
        }
        if filled.current >= filled.tables.len() {
            assert(complete);
        }
        let (next, events) = one_chunk(settings, state, chunk_size, now);
        assert(events == snapshot::closed(all, complete));
        assert forall|k: int| 0 <= k < events.len() implies ((#[trigger] events[k]).snapshot matches Some(
            tag,
        ) && tag.chunk_index == state.chunk_index && tag.is_last_chunk == (complete && k
            == events.len() - 1)) by {
            assert(of_chunk(more[k], state.chunk_index));
        }
        assert(sound(settings, next)) by {
            assert(next.tables == filled.tables);
        }
        places
    }
}

proof fn lemma_complete(settings: SnapSettings, state: SnapView)
    requires
        sound(settings, state),
        snapshot::all_complete(state.tables),
    ensures
        state.current == state.tables.len(),
{
    if state.current < state.tables.len() {
        assert(state.tables[state.current as int].snapshot.is_complete);
    }
}

proof fn lemma_incomplete(settings: SnapSettings, state: SnapView)
    requires
        sound(settings, state),
        !snapshot::all_complete(state.tables),
    ensures
        state.current < state.tables.len(),
{
}

/// Marking the end changes no row.
proof fn lemma_closed_rows(
    events: Seq<EventView>,
    complete: bool,
    places: Seq<(int, int)>,
    tables: Seq<TableView>,
)
    requires
        tells(row_part(events), places, tables),
    ensures
        tells(row_part(snapshot::closed(events, complete)), places, tables),
        row_part(events) == events ==> row_part(snapshot::closed(events, complete))
            == snapshot::closed(events, complete),
{
    let all = snapshot::closed(events, complete);
    if complete && events.len() > 0 {
        assert(all.drop_last() =~= events.drop_last());
        assert(all.last() == snapshot::last_marked(events.last()));
        if events.last().op == Operation::Read {
            let before = row_part(events.drop_last());
            let rows = row_part(all);
            let old_rows = row_part(events);
            assert(rows == before.push(all.last()));
            assert(old_rows == before.push(events.last()));
            assert forall|k: int| 0 <= k < rows.len() implies tells_row(
                #[trigger] rows[k],
                places[k],
                tables,
            ) by {
                assert(tells_row(old_rows[k], places[k], tables));
            }
            if old_rows == events {
                assert(before =~= events.drop_last());
                assert(rows =~= all);
            }
        } else {
            if row_part(events) == events {
                lemma_row_part_len(events.drop_last());
            }
        }
    }
}

proof fn lemma_row_part_len(events: Seq<EventView>)
    ensures
        row_part(events).len() <= events.len(),
    decreases events.len(),
{
    if events.len() > 0 {
        lemma_row_part_len(events.drop_last());
    }
}

/// Over all its chunks, whatever their sizes, a snapshot whose rows are at hand emits every row
/// once, table by table and in order: the rows of the chunks are those at the returned places, and
/// these with the places left are those at the start.
///
/// Each chunk is filled across the borders of tables, up to its size, until every table is
/// complete; then the chunks are empty. Chunks are numbered in sequence, and of all their events
/// only the very last is marked as the last. The number of chunks must not exhaust the numbers.
pub proof fn every_row_comes_out_once(
    settings: SnapSettings,
    state: SnapView,
    asked: Seq<(usize, u64)>,
) -> (places: Seq<(int, int)>)
    requires
        sound(settings, state),
        state.chunk_index + asked.len() <= u32::MAX,
    ensures
        ({
            let (last, list) = chunks(settings, state, asked);
            &&& list.len() == asked.len()
            &&& tells(row_part(joined(list)), places, state.tables)
            &&& places + places_left(last.tables, last.current as int) == places_left(
                state.tables,
                state.current as int,
            )
            &&& list.len() > 0 && list.last().len() == 0 ==> places == places_left(
                state.tables,
                state.current as int,
            )
            &&& forall|k: int|
                0 <= k < list.len() ==> chunk_fits(settings, state, asked, #[trigger] list[k], k)
            &&& bare(state.tables) ==> row_part(joined(list)) == joined(list)
        }),
{
    lemma_chunks(settings, state, asked)
}

/// Whether a chunk is as it should be: no larger than asked for, smaller only where it is the last,
/// numbered by its place, and marked at its last event where every table is complete after it.
/// After that no chunk holds anything.
pub open spec fn chunk_fits(
    settings: SnapSettings,
    state: SnapView,
    asked: Seq<(usize, u64)>,
    events: Seq<EventView>,
    place: int,
) -> bool {
    let before = snapshot::all_complete(chunks(settings, state, asked.take(place)).0.tables);
    let after = snapshot::all_complete(chunks(settings, state, asked.take(place + 1)).0.tables);
    &&& events.len() <= size_of_chunk(asked[place].0)
    &&& events.len() < size_of_chunk(asked[place].0) ==> after
    &&& events.len() == 0 <==> before
    &&& forall|k: int|
        0 <= k < events.len() ==> ((#[trigger] events[k]).snapshot matches Some(tag)
            && tag.chunk_index == state.chunk_index + place && tag.is_last_chunk == (after && k
            == events.len() - 1))
}

proof fn lemma_chunks(
    settings: SnapSettings,
    state: SnapView,
    asked: Seq<(usize, u64)>,
) -> (places: Seq<(int, int)>)
    requires
        sound(settings, state),
        state.chunk_index + asked.len() <= u32::MAX,
    ensures
        ({
            let (last, list) = chunks(settings, state, asked);
            &&& sound(settings, last)
            &&& same_rows(last.tables, state.tables)
            &&& list.len() == asked.len()
            &&& tells(row_part(joined(list)), places, state.tables)
            &&& places + places_left(last.tables, last.current as int) == places_left(
                state.tables,
                state.current as int,
            )
            &&& list.len() > 0 && list.last().len() == 0 ==> places == places_left(
                state.tables,
                state.current as int,
            )
            &&& forall|k: int|
                0 <= k < list.len() ==> chunk_fits(settings, state, asked, #[trigger] list[k], k)
            &&& last.chunk_index <= state.chunk_index + asked.len()
            &&& !snapshot::all_complete(last.tables) ==> last.chunk_index == state.chunk_index
                + asked.len()
            &&& bare(state.tables) ==> row_part(joined(list)) == joined(list) && bare(last.tables)
        }),
    decreases asked.len(),
{
    let (last, list) = chunks(settings, state, asked);
    if asked.len() == 0 {
        let none = Seq::<(int, int)>::empty();
        assert(none + places_left(state.tables, state.current as int) =~= places_left(
            state.tables,
            state.current as int,
        ));
        assert(joined(list) =~= Seq::<EventView>::empty());
        assert(row_part(joined(list)) =~= joined(list));
        none
    } else {
        let fewer = asked.drop_last();
        let n = fewer.len() as int;
        let earlier = lemma_chunks(settings, state, fewer);
        let (before, shorter) = chunks(settings, state, fewer);
        let more = lemma_one_chunk(
            settings,
            before,
            asked.last().0,
            asked.last().1,
            state.tables,
        );
        let events = one_chunk(settings, before, asked.last().0, asked.last().1).1;
        assert(list == shorter.push(events));
        assert(list.drop_last() =~= shorter);
        lemma_row_part_joined(joined(shorter), events);
        lemma_tells_more(
            row_part(joined(shorter)),
            earlier,
            row_part(events),
            more,
            state.tables,
        );
        let left = places_left(last.tables, last.current as int);
        assert((earlier + more) + left =~= earlier + (more + left));
        if events.len() == 0 {
            assert(snapshot::all_complete(last.tables));
            assert(left =~= Seq::<(int, int)>::empty());
            assert((earlier + more) + left =~= earlier + more);
        }
        assert(asked.take(n + 1) =~= asked);
        assert(asked.take(n) =~= fewer);
        assert forall|k: int| 0 <= k < list.len() implies chunk_fits(
            settings,
            state,
            asked,
            #[trigger] list[k],
            k,
        ) by {
            if k < n {
                assert(list[k] == shorter[k]);
                assert(chunk_fits(settings, state, fewer, shorter[k], k));
                assert(fewer.take(k) =~= asked.take(k));
                assert(fewer.take(k + 1) =~= asked.take(k + 1));
            } else {
                assert(list[k] == events);
            }
        }
        if bare(state.tables) {
            assert(row_part(joined(shorter)) + row_part(events) =~= joined(shorter) + events);
        }
        earlier + more
    }
}

proof fn lemma_places_are_distinct(tables: Seq<TableView>, from: int)
    requires
        0 <= from,
    ensures
        forall|i: int|
            0 <= i < places_left(tables, from).len() ==> (
            #[trigger] places_left(tables, from)[i]).0 >= from,
        forall|i: int, j: int|
            0 <= i < j < places_left(tables, from).len() ==> #[trigger] places_left(tables, from)[i]
                != #[trigger] places_left(tables, from)[j],
    decreases tables.len() - from,
{
    if from < tables.len() {
        lemma_places_are_distinct(tables, from + 1);
        let here = table_places(from, tables[from]);
        let rest = places_left(tables, from + 1);
        let all = places_left(tables, from);
        assert(all == here + rest);
        assert forall|i: int| 0 <= i < all.len() implies (#[trigger] all[i]).0 >= from by {
            if i >= here.len() {
                assert(all[i] == rest[i - here.len()]);
            }
        }
        assert forall|i: int, j: int| 0 <= i < j < all.len() implies #[trigger] all[i]
            != #[trigger] all[j] by {
            if i >= here.len() {
                assert(all[i] == rest[i - here.len()]);
                assert(all[j] == rest[j - here.len()]);
            } else if j >= here.len() {
                assert(all[j] == rest[j - here.len()]);
                assert(all[i].0 == from);
            }
        }
    }
}

/// No two rows of a whole snapshot have the same offset, within a chunk or across chunks. Where no
/// table is announced, every event is a row.
pub proof fn offsets_never_repeat(
    settings: SnapSettings,
    state: SnapView,
    asked: Seq<(usize, u64)>,
    first: int,
    second: int,
)
    requires
        sound(settings, state),
        state.chunk_index + asked.len() <= u32::MAX,
        0 <= first < second < row_part(joined(chunks(settings, state, asked).1)).len(),
    ensures
        ({
            let rows = row_part(joined(chunks(settings, state, asked).1));
            rows[first].source.offset != rows[second].source.offset
        }),
        bare(state.tables) ==> row_part(joined(chunks(settings, state, asked).1)) == joined(
            chunks(settings, state, asked).1,
        ),
{
    let places = every_row_comes_out_once(settings, state, asked);
    let (last, list) = chunks(settings, state, asked);
    let rows = row_part(joined(list));
    let all = places_left(state.tables, state.current as int);
    let left = places_left(last.tables, last.current as int);
    lemma_places_are_distinct(state.tables, state.current as int);
    assert(all == places + left);
    assert(all[first] == places[first]);
    assert(all[second] == places[second]);
    assert(tells_row(rows[first], places[first], state.tables));
    assert(tells_row(rows[second], places[second], state.tables));
    if rows[first].source.offset == rows[second].source.offset {
        let a = places[first];
        let b = places[second];
        snapshot_laws::offsets_do_not_repeat(
            a.0 as nat,
            b.0 as nat,
            state.tables[a.0],
            state.tables[b.0],
            a.1 as nat,
            b.1 as nat,
        );
    }
}

} // verus!
