//! What the statements of a PostgreSQL bulk snapshot read.
use vstd::prelude::*;
use crate::error::Error;
use crate::identifier;
use crate::json;
use crate::keyset;
use crate::keyset::KeysetRead;
use crate::postgres::bulk_laws;
use crate::postgres::parser;
use crate::postgres::resume;
use crate::postgres::resume::{CheckpointView, LiveQuery};
use crate::postgres::snapshot::{PostgresSnapshotHandle, TableSnapshotView, TableView};
use crate::schema::CatalogColumnView;
use crate::text;

verus! {

/// Columns of the table read, in double quotes.
pub open spec fn names_in_quotes(names: Seq<Seq<char>>) -> Seq<Seq<char>> {
    Seq::new(names.len(), |i: int| "t."@ + identifier::quoted(names[i], '"'))
}

/// The same columns, each turned into text.
pub open spec fn values_as_text(names: Seq<Seq<char>>) -> Seq<Seq<char>> {
    Seq::new(names.len(), |i: int| "t."@ + identifier::quoted(names[i], '"') + "::text"@)
}

/// The places of a cursor, numbered from one, each turned from text into its column's type.
pub open spec fn cursor_places(types: Seq<Seq<char>>) -> Seq<Seq<char>> {
    Seq::new(
        types.len(),
        |i: int| "$"@ + text::decimal_text((1 + i) as nat) + "::text::"@ + types[i],
    )
}

/// What a statement selects, and where: the key as a list of texts, the row, and the table.
pub open spec fn selection(
    table_name: Seq<char>,
    keys: Seq<Seq<char>>,
    row: Seq<char>,
) -> Seq<char> {
    "SELECT ARRAY["@ + text::joined(values_as_text(keys), ", "@) + "], "@ + row + " FROM "@
        + table_name + " t "@
}

/// A read of a table by its key columns, in PostgreSQL's words. The cursor goes into the first
/// places, one for each key column, and the limit into the one after them.
pub open spec fn spelled(
    table_name: Seq<char>,
    keys: Seq<Seq<char>>,
    types: Seq<Seq<char>>,
    row: Seq<char>,
    read: KeysetRead,
) -> Seq<char> {
    let columns = names_in_quotes(keys);
    let condition = match read.past {
        Some(comparison) => "WHERE ("@ + text::joined(columns, ", "@) + ") "@
            + keyset::comparison_text(comparison) + " ("@ + text::joined(
            cursor_places(types),
            ", "@,
        ) + ") "@,
        None => Seq::empty(),
    };
    let last_place: nat = if read.past is Some {
        keys.len() + 1
    } else {
        1
    };
    selection(table_name, keys, row) + condition + "ORDER BY "@ + text::joined(
        keyset::ordered_columns(columns, read.order),
        ", "@,
    ) + " LIMIT $"@ + text::decimal_text(last_place)
}

/// The statement for a table's next rows spells the read of the rows past the cursor, in ascending
/// key order, whatever the key columns and however many.
pub proof fn live_statement_reads_forward(
    table_name: Seq<char>,
    keys: Seq<Seq<char>>,
    types: Seq<Seq<char>>,
    row: Seq<char>,
    past_cursor: bool,
)
    ensures
        resume::live_statement(table_name, keys, types, row, past_cursor) == spelled(
            table_name,
            keys,
            types,
            row,
            keyset::forward(keys.len(), past_cursor),
        ),
{
    let columns = names_in_quotes(keys);
    keyset::ascending_columns_stand_alone(columns);
    assert(resume::order_columns(keys) =~= columns);
    assert(resume::text_columns(keys) =~= values_as_text(keys));
    assert(resume::cast_places(types) =~= cursor_places(types));
    reveal_strlit(") > (");
    reveal_strlit(") ");
    reveal_strlit(">");
    reveal_strlit(" (");
    reveal_strlit("ORDER BY ");
    reveal_strlit(") ORDER BY ");
    reveal_strlit(" LIMIT $1");
    reveal_strlit(" LIMIT $");
    assert(text::decimal_text(1) =~= seq!['1']);
    let head = selection(table_name, keys, row);
    let list = text::joined(columns, ", "@);
    let bound = text::joined(cursor_places(types), ", "@);
    if past_cursor {
        assert(head + ("WHERE ("@ + list + ") "@ + ">"@ + " ("@ + bound + ") "@) + "ORDER BY "@
            =~= head + "WHERE ("@ + list + ") > ("@ + bound + ") ORDER BY "@);
    } else {
        assert(head + Seq::<char>::empty() =~= head);
        assert(head + "ORDER BY "@ + list + " LIMIT $1"@ =~= head + "ORDER BY "@ + list
            + " LIMIT $"@ + seq!['1']);
    }
}

/// The statement for a table's next rows spells no other read: none that compares otherwise, and
/// none that goes down in any column.
pub proof fn live_statement_reads_nothing_else(
    table_name: Seq<char>,
    keys: Seq<Seq<char>>,
    types: Seq<Seq<char>>,
    row: Seq<char>,
    past_cursor: bool,
    read: KeysetRead,
)
    requires
        read.order.len() == keys.len(),
        resume::live_statement(table_name, keys, types, row, past_cursor) == spelled(
            table_name,
            keys,
            types,
            row,
            read,
        ),
    ensures
        read == keyset::forward(keys.len(), past_cursor),
{
    let right = keyset::forward(keys.len(), past_cursor);
    live_statement_reads_forward(table_name, keys, types, row, past_cursor);
    let columns = names_in_quotes(keys);
    keyset::order_lengths(columns, read.order);
    keyset::order_lengths(columns, right.order);
    keyset::ascending_columns_stand_alone(columns);
    reveal_strlit(">");
    reveal_strlit(">=");
    reveal_strlit("<");
    reveal_strlit("<=");
    reveal_strlit("=");
    reveal_strlit("<>");
    reveal_strlit("WHERE (");
    reveal_strlit(") ");
    reveal_strlit(" (");
    reveal_strlit("ORDER BY ");
    let head = selection(table_name, keys, row);
    let list = text::joined(columns, ", "@);
    let lead = head + ("WHERE ("@ + list + ") "@);
    let one = spelled(table_name, keys, types, row, read);
    let other = spelled(table_name, keys, types, row, right);
    assert(one[head.len() as int] == (if read.past is Some { 'W' } else { 'O' }));
    assert(other[head.len() as int] == (if right.past is Some { 'W' } else { 'O' }));
    if let Some(comparison) = read.past {
        assert(one[lead.len() as int] == keyset::comparison_text(comparison)[0]);
        assert(other[lead.len() as int] == '>');
    }
    let fixed = head.len() + "ORDER BY "@.len() + list.len() + " LIMIT $"@.len();
    let bound = text::joined(cursor_places(types), ", "@).len();
    assert(keyset::descents(right.order) == 0);
    match read.past {
        Some(comparison) => {
            let number = text::decimal_text((keys.len() + 1) as nat).len();
            let extra = lead.len() - head.len() + keyset::comparison_text(comparison).len()
                + " ("@.len() + bound + ") "@.len() + number;
            assert(one.len() == fixed + extra + 5 * keyset::descents(read.order));
            assert(other.len() == fixed + lead.len() - head.len() + 1 + " ("@.len() + bound
                + ") "@.len() + number);
        },
        None => {
            let number = text::decimal_text(1).len();
            assert(one.len() == fixed + number + 5 * keyset::descents(read.order));
            assert(other.len() == fixed + number);
        },
    }
    keyset::no_descent_is_ascending(read.order);
    assert(right.order =~= keyset::forward(keys.len(), false).order);
}

/// Chunk after chunk, the statement reads each row of the table once: chunks that a server gave in
/// answer to it, each past the end of the one before, hold no row twice and miss none up to the
/// last one read, and together they are the table once a chunk falls short of its limit.
pub proof fn live_chunks_read_each_row_once(
    table_name: Seq<char>,
    keys: Seq<Seq<char>>,
    types: Seq<Seq<char>>,
    row: Seq<char>,
    table: Set<Seq<int>>,
    reads: Seq<KeysetRead>,
    limits: Seq<nat>,
    chunks: Seq<Seq<Seq<int>>>,
)
    requires
        reads.len() == chunks.len(),
        limits.len() == chunks.len(),
        forall|key: Seq<int>| #[trigger] table.contains(key) ==> key.len() == keys.len(),
        forall|i: int| 0 <= i < chunks.len() - 1 ==> (#[trigger] chunks[i]).len() > 0,
        forall|i: int|
            0 <= i < chunks.len() ==> {
                &&& (#[trigger] reads[i]).order.len() == keys.len()
                &&& spelled(table_name, keys, types, row, reads[i]) == resume::live_statement(
                    table_name,
                    keys,
                    types,
                    row,
                    i > 0,
                )
                &&& keyset::answers(
                    reads[i],
                    table,
                    keyset::cursor_of(chunks, i),
                    limits[i],
                    chunks[i],
                )
            },
    ensures
        keyset::all_rows(chunks).no_duplicates(),
        forall|i: int|
            0 <= i < keyset::all_rows(chunks).len() ==> table.contains(
                #[trigger] keyset::all_rows(chunks)[i],
            ),
        forall|key: Seq<int>| #[trigger]
            table.contains(key) && !keyset::all_rows(chunks).contains(key) && keyset::all_rows(
                chunks,
            ).len() > 0 ==> keyset::key_less(keyset::all_rows(chunks).last(), key),
        chunks.len() > 0 && chunks.last().len() < limits.last() ==> forall|key: Seq<int>|
            #[trigger] table.contains(key) ==> keyset::all_rows(chunks).contains(key),
{
    assert forall|i: int| 0 <= i < chunks.len() implies keyset::answers(
        keyset::forward(keys.len(), i > 0),
        table,
        keyset::cursor_of(chunks, i),
        limits[i],
        #[trigger] chunks[i],
    ) by {
        assert(reads[i].order.len() == keys.len());
        live_statement_reads_nothing_else(table_name, keys, types, row, i > 0, reads[i]);
    }
    keyset::forward_chunks_cover_the_table(table, keys.len(), limits, chunks);
}

// Names

/// A table's progress is kept under a name that gives back the table, with and without a schema.
pub proof fn kept_name_gives_back_the_table(schema: Seq<char>, name: Seq<char>)
    requires
        schema.len() > 0,
        !schema.contains('.'),
        name.len() > 0,
        !name.contains('.'),
    ensures
        parser::configured_table(resume::kept_name(schema, name)) == (schema, name),
{
    reveal_strlit(".");
    if schema == "public"@ {
        bulk_laws::configured_name_is_split_at_its_dot(name, 0);
        assert forall|i: int| !#[trigger] bulk_laws::is_qualified(name, i) by {
            if 0 <= i < name.len() {
                assert(name.contains(name[i]));
            }
        }
    } else {
        let whole = schema + "."@ + name;
        let dot = schema.len() as int;
        assert forall|i: int| 0 <= i < dot implies whole[i] != '.' by {
            assert(schema.contains(schema[i]));
        }
        assert(bulk_laws::is_qualified(whole, dot));
        bulk_laws::configured_name_is_split_at_its_dot(whole, dot);
        let found = parser::configured_table(whole);
        assert(found.0 =~= whole.take(dot)) by {
            assert((found.0 + "."@ + found.1).take(dot) =~= found.0);
        }
        assert(found.1 =~= whole.skip(dot + 1)) by {
            assert((found.0 + "."@ + found.1).skip(dot + 1) =~= found.1);
        }
        assert(whole.take(dot) =~= schema);
        assert(whole.skip(dot + 1) =~= name);
    }
}

// Rows

/// A row is asked for as an object: under each column's name, as a literal, stands that column's
/// value as text, for all columns and in their order.
pub proof fn row_pairs_each_name_with_its_column(columns: Seq<CatalogColumnView>)
    ensures
        resume::row_as_text(columns) == "json_object(ARRAY["@ + text::joined(
            Seq::new(
                columns.len(),
                |i: int| identifier::quoted(columns[i].name, '\''),
            ),
            ", "@,
        ) + "]::text[], ARRAY["@ + text::joined(
            Seq::new(
                columns.len(),
                |i: int| "t."@ + identifier::quoted(columns[i].name, '"') + "::text"@,
            ),
            ", "@,
        ) + "]::text[])::text"@,
{
    let names = resume::column_names(columns);
    assert(resume::name_literals(names) =~= Seq::new(
        columns.len(),
        |i: int| identifier::quoted(columns[i].name, '\''),
    ));
    assert(resume::text_columns(names) =~= Seq::new(
        columns.len(),
        |i: int| "t."@ + identifier::quoted(columns[i].name, '"') + "::text"@,
    ));
}

// Checkpoints

/// A snapshot goes on from a checkpoint only where the checkpoint is of the same tables in the same
/// order, where each cursor has a value for each key column and each count of rows that are held is
/// within them, and where the table that it stands at is the first one that is not complete.
pub proof fn foreign_checkpoint_is_refused(
    tables: Seq<TableView>,
    saved: CheckpointView,
    place: int,
)
    requires
        0 <= place < tables.len(),
    ensures
        tables.len() != saved.tables.len() ==> !resume::resumable(tables, saved),
        tables[place].snapshot.table != saved.tables[place].table ==> !resume::resumable(
            tables,
            saved,
        ),
        !tables[place].live && saved.tables[place].rows_processed > tables[place].rows.len()
            ==> !resume::resumable(tables, saved),
        tables[place].live && (saved.tables[place].cursor_position matches Some(cursor)
            && !(json::strings_in(cursor) matches Ok(values) && values.len()
            == tables[place].keys.len())) ==> !resume::resumable(tables, saved),
        place < saved.current && !saved.tables[place].is_complete && saved.tables.len()
            == tables.len() ==> !resume::resumable(tables, saved),
        place == saved.current && saved.tables[place].is_complete && saved.tables.len()
            == tables.len() ==> !resume::resumable(tables, saved),
{
    lemma_first_incomplete(saved.tables, 0);
}

proof fn lemma_first_incomplete(saved: Seq<TableSnapshotView>, from: int)
    requires
        0 <= from <= saved.len(),
    ensures
        from <= resume::first_incomplete(saved, from) <= saved.len(),
        resume::first_incomplete(saved, from) < saved.len()
            ==> !saved[resume::first_incomplete(saved, from)].is_complete,
        forall|i: int|
            from <= i < resume::first_incomplete(saved, from) ==> (#[trigger] saved[i]).is_complete,
    decreases saved.len() - from,
{
    if from < saved.len() && saved[from].is_complete {
        lemma_first_incomplete(saved, from + 1);
    }
}

/// The rows that tables have read or held in all are the sum over the tables, each counted once.
pub proof fn counts_add_up(tables: Seq<TableSnapshotView>, one: TableSnapshotView)
    ensures
        resume::processed(Seq::empty()) == 0,
        resume::expected(Seq::empty()) == 0,
        resume::processed(tables.push(one)) == resume::processed(tables) + one.rows_processed,
        resume::expected(tables.push(one)) == resume::expected(tables) + one.total_rows,
{
    assert(tables.push(one).drop_last() =~= tables);
}

// The query

/// The query that a snapshot makes for a table's next rows reads that table forward, past the cursor
/// where there is one: it is spelled so, it takes the cursor's values one for each key column, and
/// it asks for as many rows as were wanted.
pub proof fn live_query_reads_forward(
    handle: &PostgresSnapshotHandle,
    table_index: usize,
    row: &str,
    cursor: Option<&str>,
    limit: usize,
    query: Result<LiveQuery, Error>,
)
    requires
        table_index < handle.tables@.len(),
        call_ensures(
            PostgresSnapshotHandle::live_query,
            (handle, table_index, row, cursor, limit),
            query,
        ),
    ensures
        query matches Ok(query) ==> ({
            let table = handle.tables@[table_index as int]@;
            let named = parser::table_named(table.snapshot.table)->0;
            &&& parser::table_named(table.snapshot.table) is Some
            &&& query.statement@ == spelled(
                identifier::quoted(named.0, '"') + "."@ + identifier::quoted(named.1, '"'),
                table.keys,
                table.key_types,
                row@,
                keyset::forward(table.keys.len(), cursor is Some),
            )
            &&& query.limit == limit
            &&& query.cursor is Some <==> cursor is Some
            &&& query.cursor matches Some(values) ==> values@.len() == table.keys.len()
                && json::strings_in(cursor->0@) == Ok::<Seq<Seq<char>>, Seq<char>>(
                text::texts(values@),
            )
        }),
{
    let table = handle.tables@[table_index as int]@;
    let named = parser::table_named(table.snapshot.table)->0;
    live_statement_reads_forward(
        parser::qualified_name(named.0, named.1),
        table.keys,
        table.key_types,
        row@,
        cursor is Some,
    );
}

} // verus!
