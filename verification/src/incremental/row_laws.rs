//! What the rows of an incremental snapshot say, from the chunk that they were read in to the
//! consumer.
use vstd::prelude::*;
use crate::event;
use crate::event::{BeforeView, EventView, Operation, EVENT_ENVELOPE_VERSION};
use crate::incremental::driver;
use crate::incremental::driver::{IncrementalSnapshotDriver, Phase, TableProgress};
use crate::incremental::fingerprint;
use crate::incremental::repair;
use crate::incremental::run;
use crate::incremental::run::Act;
use crate::incremental::steps;
use crate::incremental::table;
use crate::incremental::table::{BracketPosition, ChunkRow, EventMark, SnapshotTable, StreamPosition};
use crate::json;
use crate::json::Json;
use crate::text;

verus! {

// Rows

/// Whether an event delivers a row of a table: as a read of the whole row, with the table's schema,
/// name and key columns in key order, at the time of the read, tagged with the snapshot and the
/// number of the chunk.
pub open spec fn delivers<P>(
    reader: IncrementalSnapshotDriver<P>,
    table_idx: int,
    row: Json,
    now: u64,
    one: EventView,
) -> bool {
    let table = reader.tables@[table_idx];
    &&& one.op == Operation::Read
    &&& one.before == BeforeView::Unavailable
    &&& one.after == Some(row)
    &&& one.schema == Some(table.spec.schema@)
    &&& one.table == table.spec.name@
    &&& one.primary_key matches Some(key) && key.len() == table.spec.pk_columns@.len()
        && forall|i: int| 0 <= i < key.len() ==> #[trigger] key[i] == table.spec.pk_columns@[i]@
    &&& one.ts == now
    &&& one.source.timestamp == now
    &&& one.source.source_name == reader.source_name@
    &&& one.snapshot matches Some(tag) && tag.snapshot_id == reader.snapshot_id@
        && tag.chunk_index == table.chunks_emitted && !tag.is_last_chunk
    &&& one.transaction is None
    &&& one.schema_id is None
    &&& one.unavailable_columns.len() == 0
    &&& one.envelope_version == EVENT_ENVELOPE_VERSION
}

/// The values of a row's key columns, in key order; a column that the row lacks counts as null.
pub open spec fn key_of_row(spec: SnapshotTable, row: Json) -> Seq<Json> {
    Seq::new(
        spec.pk_columns@.len(),
        |i: int|
            if row is Object && row.members().contains_key(spec.pk_columns@[i]@) {
                row.members()[spec.pk_columns@[i]@]
            } else {
                Json::Null
            },
    )
}

/// The event that a row becomes delivers it, and tells from itself alone which row it is: the same
/// identity as the row's own key values give, by which stream events find it.
pub proof fn row_event_delivers_its_row<P>(
    reader: IncrementalSnapshotDriver<P>,
    table_idx: int,
    row: Json,
    now: u64,
)
    requires
        0 <= table_idx < reader.tables@.len(),
    ensures
        ({
            let table = reader.tables@[table_idx];
            let one = driver::snapshot_event(
                table.spec,
                reader.source_name@,
                reader.snapshot_id@,
                reader.generation,
                table.chunks_emitted,
                row,
                now,
            );
            let id = table.spec.name@ + "|"@ + json::array_text(key_of_row(table.spec, row));
            &&& delivers(reader, table_idx, row, now, one)
            &&& table.spec.pk_columns@.len() > 0 ==> fingerprint::event_identity(one) == Some(id)
            &&& fingerprint::row_fingerprint(
                table.spec.name@,
                text::texts(table.spec.pk_columns@),
                row,
            ) == id
        }),
{
    let spec = reader.tables@[table_idx].spec;
    let columns = text::texts(spec.pk_columns@);
    assert(fingerprint::key_values(columns, row) =~= key_of_row(spec, row));
    assert forall|i: int| 0 <= i < columns.len() implies #[trigger] columns[i]
        == spec.pk_columns@[i]@ by {}
}

/// A chunk that has been read holds every row of it, in order and nothing else: each as the event
/// that delivers it, under the identity that the event itself tells. The cursor that it ends at is
/// that of its last row.
pub proof fn chunk_holds_every_row_read<P>(
    before: IncrementalSnapshotDriver<P>,
    table_idx: usize,
    low: P,
    rows: Seq<ChunkRow>,
    high: P,
    now: u64,
    after: IncrementalSnapshotDriver<P>,
)
    requires
        table_idx < before.tables@.len(),
        rows.len() > 0,
        steps::chunk_taken(before, table_idx, low, rows, high, now, after),
    ensures
        after.tables == before.tables,
        after.phase matches Phase::ChunkCollect {
            table_idx: idx,
            low_watermark,
            high_watermark,
            chunk_rows,
            override_pks,
            next_cursor,
            ..
        } && {
            &&& idx == table_idx
            &&& low_watermark == low
            &&& high_watermark == high
            &&& override_pks@.len() == 0
            &&& json::jsons(next_cursor@) == json::jsons(rows[rows.len() - 1].cursor@)
            &&& chunk_rows@.len() == rows.len()
            &&& forall|i: int|
                0 <= i < rows.len() ==> {
                    let spec = before.tables@[table_idx as int].spec;
                    let id = spec.name@ + "|"@ + json::array_text(
                        key_of_row(spec, json::json(rows[i].row)),
                    );
                    &&& delivers(
                        before,
                        table_idx as int,
                        json::json(rows[i].row),
                        now,
                        (#[trigger] chunk_rows@[i]).1@,
                    )
                    &&& chunk_rows@[i].0@ == id
                    &&& spec.pk_columns@.len() > 0 ==> fingerprint::event_identity(
                        chunk_rows@[i].1@,
                    ) == Some(id)
                }
        },
{
    if let Phase::ChunkCollect { chunk_rows, .. } = after.phase {
        let views = driver::chunk_view(chunk_rows@);
        assert(views.len() == chunk_rows@.len());
        assert forall|i: int| 0 <= i < rows.len() implies {
            let spec = before.tables@[table_idx as int].spec;
            let id = spec.name@ + "|"@ + json::array_text(
                key_of_row(spec, json::json(rows[i].row)),
            );
            &&& delivers(
                before,
                table_idx as int,
                json::json(rows[i].row),
                now,
                (#[trigger] chunk_rows@[i]).1@,
            )
            &&& chunk_rows@[i].0@ == id
            &&& spec.pk_columns@.len() > 0 ==> fingerprint::event_identity(chunk_rows@[i].1@)
                == Some(id)
        } by {
            assert(views[i] == (chunk_rows@[i].0@, chunk_rows@[i].1@));
            row_event_delivers_its_row(before, table_idx as int, json::json(rows[i].row), now);
        }
    }
}

/// A read without rows completes its table, and no other.
pub proof fn empty_read_completes_its_table<P>(
    before: IncrementalSnapshotDriver<P>,
    table_idx: usize,
    low: P,
    high: P,
    now: u64,
    after: IncrementalSnapshotDriver<P>,
)
    requires
        table_idx < before.tables@.len(),
        steps::chunk_taken(before, table_idx, low, Seq::<ChunkRow>::empty(), high, now, after),
    ensures
        after.tables@.len() == before.tables@.len(),
        after.tables@[table_idx as int].is_complete,
        after.tables@[table_idx as int].pk_cursor == before.tables@[table_idx as int].pk_cursor,
        after.tables@[table_idx as int].rows_emitted
            == before.tables@[table_idx as int].rows_emitted,
        forall|i: int|
            0 <= i < before.tables@.len() && i != table_idx ==> #[trigger] after.tables@[i]
                == before.tables@[i],
        after.phase is ChunkPrepare || after.phase is Done,
{
}

// Runs

/// Whether an event delivers a row that one of some calls read.
pub open spec fn was_read<P>(
    states: Seq<IncrementalSnapshotDriver<P>>,
    acts: Seq<Act<P>>,
    one: EventView,
) -> bool {
    exists|m: int, i: int| #[trigger] row_read_by(states, acts, m, i, one)
}

/// Whether an event delivers a row of the chunk that a call read.
pub open spec fn row_read_by<P>(
    states: Seq<IncrementalSnapshotDriver<P>>,
    acts: Seq<Act<P>>,
    m: int,
    i: int,
    one: EventView,
) -> bool {
    &&& 0 <= m < acts.len()
    &&& acts[m] matches Act::Read { table_idx, rows, now, .. } && table_idx
        < states[m].tables@.len() && 0 <= i < rows.len() && delivers(
        states[m],
        table_idx as int,
        json::json(rows[i].row),
        now,
        one,
    ) && (states[m].tables@[table_idx as int].spec.pk_columns@.len() > 0
        ==> fingerprint::event_identity(one) == Some(
        states[m].tables@[table_idx as int].spec.name@ + "|"@ + json::array_text(
            key_of_row(
                states[m].tables@[table_idx as int].spec,
                json::json(rows[i].row),
            ),
        ),
    ))
}

proof fn lemma_still_read<P>(
    states: Seq<IncrementalSnapshotDriver<P>>,
    acts: Seq<Act<P>>,
    one: EventView,
)
    requires
        states.len() == acts.len() + 1,
        acts.len() > 0,
        was_read(states.drop_last(), acts.drop_last(), one),
    ensures
        was_read(states, acts, one),
{
    let (m, i) = choose|m: int, i: int| #[trigger]
        row_read_by(states.drop_last(), acts.drop_last(), m, i, one);
    assert(acts.drop_last()[m] == acts[m]);
    assert(states.drop_last()[m] == states[m]);
    assert(row_read_by(states, acts, m, i, one));
}

proof fn lemma_ledger_was_read<P: StreamPosition>(
    states: Seq<IncrementalSnapshotDriver<P>>,
    acts: Seq<Act<P>>,
)
    requires
        run::is_run(states, acts),
    ensures
        forall|k: int|
            0 <= k < run::ledger(states, acts).due.len() ==> was_read(
                states,
                acts,
                #[trigger] run::ledger(states, acts).due[k],
            ),
        run::ledger(states, acts).open matches Some(open) ==> forall|k: int|
            0 <= k < open.chunk.len() ==> was_read(states, acts, (#[trigger] open.chunk[k]).1),
    decreases acts.len(),
{
    if acts.len() > 0 {
        run::lemma_shorter(states, acts);
        lemma_ledger_was_read(states.drop_last(), acts.drop_last());
        let n = acts.len() - 1;
        let book = run::ledger(states.drop_last(), acts.drop_last());
        let next = run::ledger(states, acts);
        let act = acts.last();
        assert forall|k: int| 0 <= k < book.due.len() implies was_read(
            states,
            acts,
            #[trigger] book.due[k],
        ) by {
            lemma_still_read(states, acts, book.due[k]);
        }
        if let Some(open) = book.open {
            assert forall|k: int| 0 <= k < open.chunk.len() implies was_read(
                states,
                acts,
                (#[trigger] open.chunk[k]).1,
            ) by {
                lemma_still_read(states, acts, open.chunk[k].1);
            }
        }
        if let Some(open) = next.open {
            if let Act::Read { table_idx, rows, now, .. } = act {
                if rows.len() > 0 {
                    assert forall|k: int| 0 <= k < open.chunk.len() implies was_read(
                        states,
                        acts,
                        (#[trigger] open.chunk[k]).1,
                    ) by {
                        row_event_delivers_its_row(
                            states[n],
                            table_idx as int,
                            json::json(rows[k].row),
                            now,
                        );
                        assert(row_read_by(states, acts, n, k, open.chunk[k].1));
                    }
                }
            }
        }
        assert forall|k: int| 0 <= k < next.due.len() implies was_read(
            states,
            acts,
            #[trigger] next.due[k],
        ) by {
            if k < book.due.len() {
                assert(next.due[k] == book.due[k]);
            } else {
                let open = book.open->0;
                let noted = match act {
                    Act::Looked { batch, marks, .. } => open.noted.union(
                        run::superseded(
                            event::event_views(batch),
                            marks,
                            open.schema,
                            open.name,
                        ),
                    ),
                    _ => open.noted,
                };
                let kept = run::kept(open.chunk, noted);
                run::row_is_due_unless_superseded(open.chunk, noted);
                assert(next.due[k] == kept[k - book.due.len()]);
                let i = choose|i: int|
                    0 <= i < open.chunk.len() && (#[trigger] open.chunk[i]).1 == kept[k
                        - book.due.len()] && !noted.contains(open.chunk[i].0);
                assert(was_read(states, acts, open.chunk[i].1));
            }
        }
    }
}

/// Whatever a run hands out as a chunk row delivers a row that the run read: the whole row, with the
/// schema, the name and the key columns of the table that it was read from.
pub proof fn delivered_rows_were_read<P: StreamPosition>(
    states: Seq<IncrementalSnapshotDriver<P>>,
    acts: Seq<Act<P>>,
)
    requires
        run::is_run(states, acts),
        run::at_rest(states[0]),
    ensures
        forall|k: int|
            0 <= k < run::all_rows(states, acts).len() ==> was_read(
                states,
                acts,
                #[trigger] run::all_rows(states, acts)[k],
            ),
{
    lemma_ledger_was_read(states, acts);
    run::each_row_is_delivered_once(states, acts);
    let rows = run::all_rows(states, acts);
    let due = run::ledger(states, acts).due;
    assert forall|k: int| 0 <= k < rows.len() implies was_read(
        states,
        acts,
        #[trigger] rows[k],
    ) by {
        assert(due[k] == rows[k]);
    }
}

/// Whether an event of the stream supersedes the row of an identity in the chunk of a table: it is
/// of that table and that row, and falls between the chunk's watermarks.
pub open spec fn overtakes<P>(
    one: EventView,
    mark: Option<EventMark<P>>,
    spec: SnapshotTable,
    id: Seq<char>,
) -> bool {
    &&& one.table == spec.name@
    &&& one.schema matches Some(theirs) ==> theirs == spec.schema@
    &&& mark matches Some(m) && m.bracket == BracketPosition::Inside
    &&& fingerprint::event_identity(one) == Some(id)
}

/// Whether some event of a batch supersedes the row of an identity.
pub open spec fn overtaken_in<P>(
    events: Seq<EventView>,
    marks: Seq<Option<EventMark<P>>>,
    spec: SnapshotTable,
    id: Seq<char>,
) -> bool {
    exists|j: int| 0 <= j < events.len() && overtakes(#[trigger] events[j], marks[j], spec, id)
}

/// Whether no event that a run looks at after a call supersedes the row of an identity.
pub open spec fn never_overtaken<P>(
    acts: Seq<Act<P>>,
    after: int,
    spec: SnapshotTable,
    id: Seq<char>,
) -> bool {
    forall|n: int|
        after < n < acts.len() ==> (#[trigger] acts[n] matches Act::Looked { batch, marks, .. }
            ==> !overtaken_in(event::event_views(batch), marks, spec, id))
}

/// Whether the ledger owes an event: it is due, or in the open chunk of its table and not noted.
pub open spec fn owed<P>(
    book: run::Ledger<P>,
    spec: SnapshotTable,
    id: Seq<char>,
    one: EventView,
) -> bool {
    ||| book.due.contains(one)
    ||| book.open matches Some(open) && open.schema == spec.schema@ && open.name == spec.name@
        && open.chunk.contains((id, one)) && !open.noted.contains(id)
}

proof fn lemma_owed<P: StreamPosition>(
    states: Seq<IncrementalSnapshotDriver<P>>,
    acts: Seq<Act<P>>,
    m: int,
    i: int,
)
    requires
        run::is_run(states, acts),
        run::at_rest(states[0]),
        0 <= m < acts.len(),
        acts[m] matches Act::Read { table_idx, rows, .. } && 0 <= i < rows.len()
            && never_overtaken(
            acts,
            m,
            states[m].tables@[table_idx as int].spec,
            states[m].tables@[table_idx as int].spec.name@ + "|"@ + json::array_text(
                key_of_row(
                    states[m].tables@[table_idx as int].spec,
                    json::json(rows[i].row),
                ),
            ),
        ),
    ensures
        acts[m] matches Act::Read { table_idx, rows, now, .. } && ({
            let table = states[m].tables@[table_idx as int];
            let row = json::json(rows[i].row);
            let id = table.spec.name@ + "|"@ + json::array_text(key_of_row(table.spec, row));
            owed(
                run::ledger(states, acts),
                table.spec,
                id,
                driver::snapshot_event(
                    table.spec,
                    states[m].source_name@,
                    states[m].snapshot_id@,
                    states[m].generation,
                    table.chunks_emitted,
                    row,
                    now,
                ),
            )
        }),
    decreases acts.len(),
{
    let n = acts.len() - 1;
    let fewer = states.drop_last();
    let less = acts.drop_last();
    run::lemma_shorter(states, acts);
    let book = run::ledger(fewer, less);
    let next = run::ledger(states, acts);
    if let Act::Read { table_idx, low, rows, high, now } = acts[m] {
        let table = states[m].tables@[table_idx as int];
        let row = json::json(rows[i].row);
        let id = table.spec.name@ + "|"@ + json::array_text(key_of_row(table.spec, row));
        let one = driver::snapshot_event(
            table.spec,
            states[m].source_name@,
            states[m].snapshot_id@,
            states[m].generation,
            table.chunks_emitted,
            row,
            now,
        );
        assert(run::leads(states[m], acts[m], states[m + 1]));
        row_event_delivers_its_row(states[m], table_idx as int, row, now);
        if m == n {
            let open = next.open->0;
            assert(open.chunk[i] == (id, one));
            assert(open.chunk.contains((id, one)));
        } else {
            assert(less[m] == acts[m]);
            assert(fewer[m] == states[m]);
            assert(never_overtaken(less, m, table.spec, id)) by {
                assert forall|k: int| m < k < less.len() implies (
                #[trigger] less[k] matches Act::Looked { batch, marks, .. } ==> !overtaken_in(
                    event::event_views(batch),
                    marks,
                    table.spec,
                    id,
                )) by {
                    assert(less[k] == acts[k]);
                }
            }
            lemma_owed(fewer, less, m, i);
            run::each_row_is_delivered_once(fewer, less);
            if book.due.contains(one) {
                let k = choose|k: int| 0 <= k < book.due.len() && book.due[k] == one;
                assert(next.due[k] == one);
            } else {
                let open = book.open->0;
                let act = acts.last();
                match act {
                    Act::Read { .. } => {
                        assert(states[n].phase is ChunkPrepare);
                        assert(fewer.last() == states[n]);
                        assert(run::at_rest(fewer.last()));
                        assert(book.open is None);
                    },
                    Act::Looked { batch, marks, .. } => {
                        let events = event::event_views(batch);
                        let noted = open.noted.union(
                            run::superseded(events, marks, open.schema, open.name),
                        );
                        assert(acts[n] == act);
                        assert(!overtaken_in(events, marks, table.spec, id));
                        assert(!noted.contains(id)) by {
                            assert forall|j: int| 0 <= j < events.len() implies !(
                            driver::supersedes(
                                #[trigger] events[j],
                                marks[j],
                                open.schema,
                                open.name,
                            ) && fingerprint::event_identity(events[j]) == Some(id)) by {
                                assert(!overtakes(events[j], marks[j], table.spec, id));
                            }
                        }
                        lemma_kept(open.chunk, noted, id, one, book.due);
                    },
                    Act::Quiet { .. } => {
                        lemma_kept(open.chunk, open.noted, id, one, book.due);
                    },
                    _ => {},
                }
            }
        }
    }
}

proof fn lemma_kept(
    chunk: Seq<(Seq<char>, EventView)>,
    noted: Set<Seq<char>>,
    id: Seq<char>,
    one: EventView,
    due: Seq<EventView>,
)
    requires
        chunk.contains((id, one)),
        !noted.contains(id),
    ensures
        (due + run::kept(chunk, noted)).contains(one),
{
    run::row_is_due_unless_superseded(chunk, noted);
    let k = choose|k: int| 0 <= k < chunk.len() && chunk[k] == (id, one);
    assert(!noted.contains(chunk[k].0));
    let kept = run::kept(chunk, noted);
    let j = choose|j: int| 0 <= j < kept.len() && kept[j] == one;
    assert((due + kept)[due.len() + j] == one);
}

/// Every row that a run reads, and that no event of the stream supersedes afterwards, is handed out
/// by the time the driver is at rest again: as an event that delivers it.
pub proof fn unsuperseded_rows_are_delivered<P: StreamPosition>(
    states: Seq<IncrementalSnapshotDriver<P>>,
    acts: Seq<Act<P>>,
    m: int,
    i: int,
)
    requires
        run::is_run(states, acts),
        run::at_rest(states[0]),
        run::at_rest(states.last()),
        0 <= m < acts.len(),
        acts[m] matches Act::Read { table_idx, rows, .. } && 0 <= i < rows.len()
            && never_overtaken(
            acts,
            m,
            states[m].tables@[table_idx as int].spec,
            states[m].tables@[table_idx as int].spec.name@ + "|"@ + json::array_text(
                key_of_row(
                    states[m].tables@[table_idx as int].spec,
                    json::json(rows[i].row),
                ),
            ),
        ),
    ensures
        exists|k: int|
            0 <= k < run::all_rows(states, acts).len() && row_read_by(
                states,
                acts,
                m,
                i,
                #[trigger] run::all_rows(states, acts)[k],
            ),
{
    lemma_owed(states, acts, m, i);
    run::each_row_is_delivered_once(states, acts);
    if let Act::Read { table_idx, low, rows, high, now } = acts[m] {
        let table = states[m].tables@[table_idx as int];
        let row = json::json(rows[i].row);
        let one = driver::snapshot_event(
            table.spec,
            states[m].source_name@,
            states[m].snapshot_id@,
            states[m].generation,
            table.chunks_emitted,
            row,
            now,
        );
        assert(run::leads(states[m], acts[m], states[m + 1]));
        row_event_delivers_its_row(states[m], table_idx as int, row, now);
        let out = run::all_rows(states, acts);
        let k = choose|k: int| 0 <= k < out.len() && out[k] == one;
        assert(row_read_by(states, acts, m, i, out[k]));
    }
}

// Brackets

/// An event supersedes a row only if it is of the row's table and falls between the watermarks; one
/// of another table, one that the read could have seen, one that came after the read, and one
/// without a place supersede nothing.
pub proof fn only_events_between_the_watermarks_supersede<P>(
    one: EventView,
    mark: Option<EventMark<P>>,
    spec: SnapshotTable,
)
    ensures
        driver::supersedes(one, mark, spec.schema@, spec.name@) <==> {
            &&& one.table == spec.name@
            &&& one.schema is None || one.schema == Some(spec.schema@)
            &&& mark is Some
            &&& (mark->0).bracket == BracketPosition::Inside
        },
{
}

/// The watermarks part the log in three: up to the low one, from there up to and with the high one,
/// and past it.
pub proof fn watermarks_part_the_log(position: int, low: int, high: int)
    requires
        low <= high,
    ensures
        table::ordinal_bracket(position, low, high) == BracketPosition::Before <==> position <= low,
        table::ordinal_bracket(position, low, high) == BracketPosition::Inside <==> low < position
            <= high,
        table::ordinal_bracket(position, low, high) == BracketPosition::After <==> position > high,
{
}

/// A batch is split at its first event past the high watermark: none before the split is past it,
/// and the one at the split is.
pub proof fn batch_is_split_at_the_high_watermark<P>(marks: Seq<Option<EventMark<P>>>)
    ensures
        0 <= driver::first_after(marks) <= marks.len(),
        forall|i: int|
            0 <= i < driver::first_after(marks) ==> !(#[trigger] marks[i] matches Some(m)
                && m.bracket == BracketPosition::After),
        driver::first_after(marks) < marks.len() ==> (marks[driver::first_after(
            marks,
        )] matches Some(m) && m.bracket == BracketPosition::After),
    decreases marks.len(),
{
    if marks.len() > 0 {
        let rest = marks.drop_first();
        batch_is_split_at_the_high_watermark(rest);
        let split = driver::first_after(marks);
        assert forall|i: int| 0 <= i < split implies !(#[trigger] marks[i] matches Some(m)
            && m.bracket == BracketPosition::After) by {
            if i > 0 {
                assert(rest[i - 1] == marks[i]);
            }
        }
        if 0 < split < marks.len() {
            assert(rest[split - 1] == marks[split]);
        }
    }
}

/// A chunk is merged once an event at or past its high watermark has come, and not before.
pub proof fn chunk_waits_for_its_high_watermark<P: StreamPosition>(
    marks: Seq<Option<EventMark<P>>>,
    high: P,
)
    ensures
        driver::reaches(marks, high) <==> !(forall|i: int|
            0 <= i < marks.len() ==> (#[trigger] marks[i] matches Some(m) ==> m.position.rank()
                < high.rank())),
{
}

/// A chunk that was handed out in full counts as one chunk and with as many rows as were handed
/// out, and moves the cursor to its end.
pub proof fn delivered_chunk_is_counted(
    table: TableProgress,
    next_cursor: Vec<serde_json::Value>,
    row_count: u64,
)
    requires
        table.chunks_emitted < u32::MAX,
        table.rows_emitted + row_count <= u64::MAX,
    ensures
        ({
            let after = driver::committed(table, next_cursor, row_count);
            &&& after.chunks_emitted == table.chunks_emitted + 1
            &&& after.rows_emitted == table.rows_emitted + row_count
            &&& after.is_complete == table.is_complete
            &&& after.spec == table.spec
            &&& next_cursor@.len() > 0 ==> after.pk_cursor == Some(next_cursor)
            &&& next_cursor@.len() == 0 ==> after.pk_cursor == table.pk_cursor
        }),
{
}

// Repair

/// A repair touches only the columns that an event misses: it takes them from the chunk row, and
/// leaves every other value, the operation, the table and the place in the log as they came.
pub proof fn repair_fills_only_what_is_missing(event: EventView, shadow: Map<Seq<char>, Json>)
    ensures
        ({
            let after = repair::repaired(event, shadow);
            &&& after == (EventView {
                before: after.before,
                after: after.after,
                unavailable_columns: after.unavailable_columns,
                ..event
            })
            &&& after.after is Some == event.after is Some
            &&& event.after matches Some(Json::Object(image)) ==> {
                let mended = after.after->0.members();
                &&& forall|name: Seq<char>| #[trigger]
                    mended.contains_key(name) ==> image.contains_key(name) || (
                    event.unavailable_columns.contains(name) && shadow.contains_key(name))
                &&& forall|name: Seq<char>| #[trigger]
                    image.contains_key(name) ==> mended.contains_key(name) && (
                    !event.unavailable_columns.contains(name) ==> mended[name] == image[name])
                &&& forall|name: Seq<char>| #[trigger]
                    event.unavailable_columns.contains(name) && shadow.contains_key(name)
                        ==> mended.contains_key(name) && mended[name] == shadow[name]
            }
        }),
{
    if let Some(Json::Object(image)) = event.after {
        let columns = event.unavailable_columns;
        let mended = repair::filled(image, columns, shadow);
        assert forall|name: Seq<char>| columns.to_set().contains(name) == columns.contains(
            name,
        ) by {}
    }
}

/// Whether a driver's open chunk hands over each of some rows, in order, as a read of the whole row
/// that names the table's key.
pub open spec fn holds_rows<P>(
    before: IncrementalSnapshotDriver<P>,
    table_idx: usize,
    rows: Seq<ChunkRow>,
    now: u64,
    after: IncrementalSnapshotDriver<P>,
) -> bool {
    after.phase matches Phase::ChunkCollect { table_idx: idx, chunk_rows, .. } && idx == table_idx
        && chunk_rows@.len() == rows.len() && forall|i: int|
        0 <= i < rows.len() ==> delivers(
            before,
            table_idx as int,
            json::json(rows[i].row),
            now,
            (#[trigger] chunk_rows@[i]).1@,
        )
}

/// A chunk that a driver takes in holds an event for each row that was read: a read of that row,
/// under its table's name, with the columns of the table's key.
pub proof fn read_chunk_hands_over_its_rows<P: StreamPosition>(
    table_idx: usize,
    low: P,
    rows: Vec<ChunkRow>,
    high: P,
    now: u64,
)
    requires
        rows@.len() > 0,
    ensures
        forall|reader: &mut IncrementalSnapshotDriver<P>|
            table_idx < (*reader).tables@.len() && #[trigger] call_ensures(
                IncrementalSnapshotDriver::<P>::chunk_read,
                (reader, table_idx, low, rows, high, now),
                (),
            ) ==> holds_rows(*reader, table_idx, rows@, now, *final(reader)),
{
    assert forall|reader: &mut IncrementalSnapshotDriver<P>|
        table_idx < (*reader).tables@.len() && #[trigger] call_ensures(
            IncrementalSnapshotDriver::<P>::chunk_read,
            (reader, table_idx, low, rows, high, now),
            (),
        ) implies holds_rows(*reader, table_idx, rows@, now, *final(reader)) by {
        chunk_holds_every_row_read(
            *reader,
            table_idx,
            low,
            rows@,
            high,
            now,
            *final(reader),
        );
    }
}

} // verus!
