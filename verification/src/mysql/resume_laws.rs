//! What the statements of a MySQL bulk snapshot read.
use vstd::prelude::*;
use crate::error::Error;
use crate::identifier;
use crate::json;
use crate::json::Json;
use crate::keyset;
use crate::keyset::KeysetRead;
use crate::mysql::parser;
use crate::mysql::resume;
use crate::mysql::resume::LiveQuery;
use crate::mysql::snapshot::{MysqlSnapshotHandle, TableSnapshotView, TableView};
use crate::text;

verus! {

/// Names in back quotes.
pub open spec fn names_in_quotes(names: Seq<Seq<char>>) -> Seq<Seq<char>> {
    Seq::new(names.len(), |i: int| identifier::quoted(names[i], '`'))
}

/// A read of a table by its key columns, in MySQL's words. The cursor goes into one place for each
/// key column, and the limit into the last.
pub open spec fn spelled(
    table_name: Seq<char>,
    keys: Seq<Seq<char>>,
    read: KeysetRead,
) -> Seq<char> {
    let columns = names_in_quotes(keys);
    let places = Seq::new(keys.len(), |i: int| "?"@);
    let condition = match read.past {
        Some(comparison) => "WHERE ("@ + text::joined(columns, ", "@) + ") "@
            + keyset::comparison_text(comparison) + " ("@ + text::joined(places, ", "@) + ")"@,
        None => Seq::empty(),
    };
    "SELECT * FROM "@ + table_name + " "@ + condition + " ORDER BY "@ + text::joined(
        keyset::ordered_columns(columns, read.order),
        ", "@,
    ) + " LIMIT ?"@
}

/// The statement for a table's next rows spells the read of the rows past the cursor, in ascending
/// key order, whatever the key columns and however many.
pub proof fn live_statement_reads_forward(
    table_name: Seq<char>,
    keys: Seq<Seq<char>>,
    past_cursor: bool,
)
    ensures
        resume::live_statement(table_name, keys, past_cursor) == spelled(
            table_name,
            keys,
            keyset::forward(keys.len(), past_cursor),
        ),
{
    let columns = names_in_quotes(keys);
    keyset::ascending_columns_stand_alone(columns);
    assert(resume::quoted_names(keys) =~= columns);
    assert(resume::places(keys.len()) =~= Seq::new(keys.len(), |i: int| "?"@));
    reveal_strlit(") > (");
    reveal_strlit(") ");
    reveal_strlit(">");
    reveal_strlit(" (");
    reveal_strlit("");
    assert(""@ =~= Seq::<char>::empty());
    let list = text::joined(columns, ", "@);
    assert("WHERE ("@ + list + ") "@ + ">"@ + " ("@ =~= "WHERE ("@ + list + ") > ("@);
}

/// The statement for a table's next rows spells no other read: none that compares otherwise, and
/// none that goes down in any column.
pub proof fn live_statement_reads_nothing_else(
    table_name: Seq<char>,
    keys: Seq<Seq<char>>,
    past_cursor: bool,
    read: KeysetRead,
)
    requires
        read.order.len() == keys.len(),
        resume::live_statement(table_name, keys, past_cursor) == spelled(table_name, keys, read),
    ensures
        read == keyset::forward(keys.len(), past_cursor),
{
    let right = keyset::forward(keys.len(), past_cursor);
    live_statement_reads_forward(table_name, keys, past_cursor);
    let columns = names_in_quotes(keys);
    keyset::order_lengths(columns, read.order);
    keyset::order_lengths(columns, right.order);
    keyset::ascending_columns_stand_alone(columns);
    reveal_strlit(">");
    reveal_strlit(">=");
    reveal_strlit("<");
    reveal_strlit("<=");
    reveal_strlit("=");
    reveal_strlit("<>");
    reveal_strlit("WHERE (");
    reveal_strlit(") ");
    reveal_strlit(" (");
    reveal_strlit(")");
    reveal_strlit(" ORDER BY ");
    let head = "SELECT * FROM "@ + table_name + " "@;
    let list = text::joined(columns, ", "@);
    let lead = head + ("WHERE ("@ + list + ") "@);
    let one = spelled(table_name, keys, read);
    let other = spelled(table_name, keys, right);
    assert(one[head.len() as int] == (if read.past is Some { 'W' } else { ' ' }));
    assert(other[head.len() as int] == (if right.past is Some { 'W' } else { ' ' }));
    if let Some(comparison) = read.past {
        assert(one[lead.len() as int] == keyset::comparison_text(comparison)[0]);
        assert(other[lead.len() as int] == '>');
    }
    let fixed = head.len() + " ORDER BY "@.len() + list.len() + " LIMIT ?"@.len();
    let bound = text::joined(Seq::new(keys.len(), |i: int| "?"@), ", "@).len();
    assert(keyset::descents(right.order) == 0);
    match read.past {
        Some(comparison) => {
            let extra = lead.len() - head.len() + keyset::comparison_text(comparison).len()
                + " ("@.len() + bound + ")"@.len();
            assert(one.len() == fixed + extra + 5 * keyset::descents(read.order));
            assert(other.len() == fixed + lead.len() - head.len() + 1 + " ("@.len() + bound
                + ")"@.len());
        },
        None => {
            assert(one.len() == fixed + 5 * keyset::descents(read.order));
            assert(other.len() == fixed);
        },
    }
    keyset::no_descent_is_ascending(read.order);
    assert(right.order =~= keyset::forward(keys.len(), false).order);
}

/// Chunk after chunk, the statement reads each row of the table once: chunks that a server gave in
/// answer to it, each past the end of the one before, hold no row twice and miss none up to the
/// last one read, and together they are the table once a chunk falls short of its limit.
pub proof fn live_chunks_read_each_row_once(
    table_name: Seq<char>,
    keys: Seq<Seq<char>>,
    table: Set<Seq<int>>,
    reads: Seq<KeysetRead>,
    limits: Seq<nat>,
    chunks: Seq<Seq<Seq<int>>>,
)
    requires
        reads.len() == chunks.len(),
        limits.len() == chunks.len(),
        forall|key: Seq<int>| #[trigger] table.contains(key) ==> key.len() == keys.len(),
        forall|i: int| 0 <= i < chunks.len() - 1 ==> (#[trigger] chunks[i]).len() > 0,
        forall|i: int|
            0 <= i < chunks.len() ==> {
                &&& (#[trigger] reads[i]).order.len() == keys.len()
                &&& spelled(table_name, keys, reads[i]) == resume::live_statement(
                    table_name,
                    keys,
                    i > 0,
                )
                &&& keyset::answers(
                    reads[i],
                    table,
                    keyset::cursor_of(chunks, i),
                    limits[i],
                    chunks[i],
                )
            },
    ensures
        keyset::all_rows(chunks).no_duplicates(),
        forall|i: int|
            0 <= i < keyset::all_rows(chunks).len() ==> table.contains(
                #[trigger] keyset::all_rows(chunks)[i],
            ),
        forall|key: Seq<int>| #[trigger]
            table.contains(key) && !keyset::all_rows(chunks).contains(key) && keyset::all_rows(
                chunks,
            ).len() > 0 ==> keyset::key_less(keyset::all_rows(chunks).last(), key),
        chunks.len() > 0 && chunks.last().len() < limits.last() ==> forall|key: Seq<int>|
            #[trigger] table.contains(key) ==> keyset::all_rows(chunks).contains(key),
{
    assert forall|i: int| 0 <= i < chunks.len() implies keyset::answers(
        keyset::forward(keys.len(), i > 0),
        table,
        keyset::cursor_of(chunks, i),
        limits[i],
        #[trigger] chunks[i],
    ) by {
        assert(reads[i].order.len() == keys.len());
        live_statement_reads_nothing_else(table_name, keys, i > 0, reads[i]);
    }
    keyset::forward_chunks_cover_the_table(table, keys.len(), limits, chunks);
}

// Checkpoints

/// A snapshot goes on from a checkpoint only where the checkpoint has as many tables, and where each
/// count of rows that are held is within them.
pub proof fn misfitting_checkpoint_is_refused(
    tables: Seq<TableView>,
    saved: Seq<TableSnapshotView>,
    place: int,
)
    requires
        0 <= place < tables.len(),
    ensures
        tables.len() != saved.len() ==> !resume::resumable(tables, saved),
        !tables[place].live && saved[place].rows_processed > tables[place].rows.len()
            ==> !resume::resumable(tables, saved),
        tables.len() == saved.len() && (forall|i: int|
            0 <= i < tables.len() ==> (#[trigger] tables[i]).live || saved[i].rows_processed
                <= tables[i].rows.len()) ==> resume::resumable(tables, saved),
{
}

/// The rows that tables have read or held in all are the sum over the tables, each counted once.
pub proof fn counts_add_up(tables: Seq<TableSnapshotView>, one: TableSnapshotView)
    ensures
        resume::processed(Seq::empty()) == 0,
        resume::expected(Seq::empty()) == 0,
        resume::processed(tables.push(one)) == resume::processed(tables) + one.rows_processed,
        resume::expected(tables.push(one)) == resume::expected(tables) + one.total_rows,
{
    assert(tables.push(one).drop_last() =~= tables);
}

// The query

/// The query that a snapshot makes for a table's next rows reads that table forward, past the cursor
/// where there is one: it is spelled so, it takes the cursor's values one for each key column, and
/// it asks for as many rows as were wanted.
pub proof fn live_query_reads_forward(
    handle: &MysqlSnapshotHandle,
    table_index: usize,
    cursor: Option<&str>,
    limit: usize,
    query: Result<LiveQuery, Error>,
)
    requires
        table_index < handle.tables@.len(),
        call_ensures(
            MysqlSnapshotHandle::live_query,
            (handle, table_index, cursor, limit),
            query,
        ),
    ensures
        query matches Ok(query) ==> ({
            let table = handle.tables@[table_index as int]@;
            let named = identifier::table_reference(table.snapshot.table, '`')->0;
            &&& identifier::table_reference(table.snapshot.table, '`') is Some
            &&& query.statement@ == spelled(
                match named.0 {
                    Some(schema) => identifier::quoted(schema, '`') + "."@ + identifier::quoted(
                        named.1,
                        '`',
                    ),
                    None => identifier::quoted(named.1, '`'),
                },
                table.keys,
                keyset::forward(table.keys.len(), cursor is Some),
            )
            &&& query.limit == limit
            &&& query.cursor is Some <==> cursor is Some
            &&& query.cursor matches Some(values) ==> values@.len() == table.keys.len()
                && json::array_in(cursor->0@) == Ok::<Seq<Json>, Seq<char>>(
                json::jsons(values@),
            )
        }),
{
    let table = handle.tables@[table_index as int]@;
    let named = identifier::table_reference(table.snapshot.table, '`')->0;
    live_statement_reads_forward(
        parser::qualified_name(named.0, named.1),
        table.keys,
        cursor is Some,
    );
}

} // verus!
