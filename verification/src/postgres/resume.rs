//! The ends of a PostgreSQL bulk snapshot: how its tables are set up, what it reads from the
//! server, what it leaves in a checkpoint, how it goes on from one, and how it finishes.
use vstd::prelude::*;
use crate::error::Error;
use crate::identifier;
use crate::json;
use crate::json::Json;
use crate::postgres::parser;
use crate::postgres::snapshot;
use crate::postgres::snapshot::{
    PostgresSnapshot, PostgresSnapshotHandle, SnapView, TableSnapshot, TableSnapshotState,
    TableSnapshotView, TableView,
};
use crate::schema;
use crate::schema::{CatalogColumn, CatalogColumnView};
use crate::text;

verus! {

// Setting up

/// The name that a table's progress is kept under: bare in `public`, and qualified elsewhere.
pub open spec fn kept_name(schema: Seq<char>, name: Seq<char>) -> Seq<char> {
    if schema == "public"@ {
        name
    } else {
        schema + "."@ + name
    }
}

/// A table that a snapshot is about to read. It needs a primary key, to be read in chunks and
/// resumed; a table without rows is complete at once.
pub fn new_table_state(
    schema: &str,
    name: &str,
    primary_key_columns: Vec<String>,
    primary_key_types: Vec<String>,
    catalog_columns: Vec<CatalogColumn>,
    total_rows: i64,
) -> (state: Result<TableSnapshotState, Error>)
    ensures
        match state {
            Ok(state) => primary_key_columns@.len() > 0 && total_rows >= 0 && state@ == (
            TableView {
                snapshot: TableSnapshotView {
                    table: kept_name(schema@, name@),
                    total_rows: total_rows as u64,
                    rows_processed: 0,
                    cursor_position: None,
                    is_complete: total_rows == 0,
                },
                keys: text::texts(primary_key_columns@),
                key_types: text::texts(primary_key_types@),
                rows: Seq::empty(),
                next_row: 0,
                live: true,
                columns: schema::catalog_views(catalog_columns@),
                announced: false,
                schema_id: None,
            }),
            Err(Error::ConfigError(message)) => primary_key_columns@.len() == 0 && message@
                == "postgres snapshot requires a primary key for resumable table '"@ + schema@
                + "."@ + name@ + "'"@,
            Err(Error::SourceError(message)) => primary_key_columns@.len() > 0 && total_rows < 0
                && message@ == "negative row count returned for table '"@ + schema@ + "."@ + name@
                + "'"@,
            Err(_) => false,
        },
{
    if primary_key_columns.len() == 0 {
        return Err(
            Error::ConfigError(
                text::join5(
                    "postgres snapshot requires a primary key for resumable table '",
                    schema,
                    ".",
                    name,
                    "'",
                ),
            ),
        );
    }
    if total_rows < 0 {
        return Err(
            Error::SourceError(
                text::join5("negative row count returned for table '", schema, ".", name, "'"),
            ),
        );
    }
    let state = TableSnapshotState {
        snapshot: TableSnapshot {
            table: if text::same_text(schema, "public") {
                name.to_owned()
            } else {
                text::join3(schema, ".", name)
            },
            total_rows: total_rows as u64,
            rows_processed: 0,
            cursor_position: None,
            is_complete: total_rows == 0,
        },
        rows: Vec::new(),
        next_row: 0,
        live_query: true,
        primary_key_columns,
        primary_key_types,
        catalog_columns,
        schema_announced: false,
        schema_id: None,
    };
    proof {
        assert(state@.rows =~= Seq::empty());
    }
    Ok(state)
}

/// The identifier of a snapshot whose server gave none.
pub fn fallback_snapshot_id(start_ts: u64, tables: usize) -> (id: String)
    ensures
        id@ == "pg-snapshot-"@ + text::decimal_text(start_ts as nat) + "-"@ + text::decimal_text(
            tables as nat,
        ),
{
    text::join2(
        text::join3("pg-snapshot-", text::decimal(start_ts).as_str(), "-").as_str(),
        text::decimal(tables as u64).as_str(),
    )
}

/// The record of a snapshot that starts now. Without rows to read it is over at once.
pub fn new_snapshot(states: &Vec<TableSnapshotState>, snapshot_id: String, start_ts: u64) -> (
    record: PostgresSnapshot)
    ensures
        snapshot::snapshot_views(record.tables@) == snapshot::table_views(states@).map_values(
            |table: TableView| table.snapshot,
        ),
        record.snapshot_id == snapshot_id,
        record.snapshot_start_ts == start_ts,
        record.snapshot_end_ts == (if snapshot::all_complete(snapshot::table_views(states@)) {
            start_ts
        } else {
            0
        }),
{
    let ghost views = snapshot::table_views(states@);
    let ghost whole = views.map_values(|table: TableView| table.snapshot);
    let mut tables: Vec<TableSnapshot> = Vec::new();
    let mut complete = true;
    let mut i: usize = 0;
    while i < states.len()
        invariant
            i <= states@.len(),
            views == snapshot::table_views(states@),
            whole == views.map_values(|table: TableView| table.snapshot),
            snapshot::snapshot_views(tables@) == whole.take(i as int),
            complete == (forall|k: int|
                0 <= k < i ==> (#[trigger] views[k]).snapshot.is_complete),
        decreases states.len() - i,
    {
        let one = states[i].snapshot.clone();
        let ghost before = snapshot::snapshot_views(tables@);
        let ghost seen = one@;
        proof {
            assert(views[i as int] == states@[i as int]@);
        }
        if !one.is_complete {
            complete = false;
        }
        tables.push(one);
        proof {
            assert(snapshot::snapshot_views(tables@) =~= before.push(seen));
            assert(whole.take(i + 1) =~= whole.take(i as int).push(seen));
        }
        i = i + 1;
    }
    proof {
        assert(whole.take(i as int) =~= whole);
    }
    PostgresSnapshot {
        tables,
        snapshot_id,
        snapshot_start_ts: start_ts,
        snapshot_end_ts: if complete {
            start_ts
        } else {
            0
        },
    }
}

// Live rows

/// The statement that reads a table's next rows, and what goes into its places.
pub struct LiveQuery {
    pub statement: String,
    /// The key values to read past, as text; none at the start of the table.
    pub cursor: Option<Vec<String>>,
    pub limit: i64,
}

/// Key columns of the table read, as an expression each.
pub open spec fn order_columns(keys: Seq<Seq<char>>) -> Seq<Seq<char>> {
    keys.map_values(|name: Seq<char>| "t."@ + identifier::quoted(name, '"'))
}

/// Key columns of the table read, each as text.
pub open spec fn text_columns(keys: Seq<Seq<char>>) -> Seq<Seq<char>> {
    keys.map_values(|name: Seq<char>| "t."@ + identifier::quoted(name, '"') + "::text"@)
}

/// The parameter places of a cursor, each cast from text to its column's type.
pub open spec fn cast_places(types: Seq<Seq<char>>) -> Seq<Seq<char>> {
    Seq::new(
        types.len(),
        |i: int| "$"@ + text::decimal_text((i + 1) as nat) + "::text::"@ + types[i],
    )
}

/// The statement that reads rows in key order, past a cursor where there is one.
pub open spec fn live_statement(
    table_name: Seq<char>,
    keys: Seq<Seq<char>>,
    types: Seq<Seq<char>>,
    row: Seq<char>,
    past_cursor: bool,
) -> Seq<char> {
    let order = text::joined(order_columns(keys), ", "@);
    let head = "SELECT ARRAY["@ + text::joined(text_columns(keys), ", "@) + "], "@ + row
        + " FROM "@ + table_name + " t "@;
    if past_cursor {
        head + "WHERE ("@ + order + ") > ("@ + text::joined(cast_places(types), ", "@)
            + ") ORDER BY "@ + order + " LIMIT $"@ + text::decimal_text((keys.len() + 1) as nat)
    } else {
        head + "ORDER BY "@ + order + " LIMIT $1"@
    }
}

/// The names of some columns.
pub open spec fn column_names(columns: Seq<CatalogColumnView>) -> Seq<Seq<char>> {
    columns.map_values(|column: CatalogColumnView| column.name)
}

/// Names as text literals.
pub open spec fn name_literals(names: Seq<Seq<char>>) -> Seq<Seq<char>> {
    names.map_values(|name: Seq<char>| identifier::quoted(name, '\''))
}

/// The expression for a row as a JSON object of texts, which is how the log spells values too.
pub open spec fn row_as_text(columns: Seq<CatalogColumnView>) -> Seq<char> {
    let names = column_names(columns);
    "json_object(ARRAY["@ + text::joined(name_literals(names), ", "@) + "]::text[], ARRAY["@
        + text::joined(text_columns(names), ", "@) + "]::text[])::text"@
}

/// The expression for a row's payload; see [`row_as_text`].
pub fn row_expression(columns: &Vec<CatalogColumn>) -> (expression: String)
    ensures
        expression@ == row_as_text(schema::catalog_views(columns@)),
{
    let ghost all = column_names(schema::catalog_views(columns@));
    let ghost whole = name_literals(all);
    let mut names: Vec<String> = Vec::new();
    let mut literals: Vec<String> = Vec::new();
    let mut i: usize = 0;
    proof {
        assert(text::texts(names@) =~= all.take(0));
        assert(text::texts(literals@) =~= whole.take(0));
    }
    while i < columns.len()
        invariant
            i <= columns@.len(),
            all == column_names(schema::catalog_views(columns@)),
            whole == name_literals(all),
            text::texts(names@) == all.take(i as int),
            text::texts(literals@) == whole.take(i as int),
        decreases columns.len() - i,
    {
        let name = columns[i].name.clone();
        let literal = identifier::quote_identifier(name.as_str(), '\'');
        let ghost seen = name@;
        let ghost told = literal@;
        let ghost names_before = text::texts(names@);
        let ghost literals_before = text::texts(literals@);
        proof {
            assert(schema::catalog_views(columns@)[i as int] == columns@[i as int]@);
            assert(all[i as int] == seen);
        }
        names.push(name);
        literals.push(literal);
        proof {
            assert(text::texts(names@) =~= names_before.push(seen));
            assert(text::texts(literals@) =~= literals_before.push(told));
            assert(all.take(i + 1) =~= all.take(i as int).push(seen));
            assert(whole.take(i + 1) =~= whole.take(i as int).push(told));
        }
        i = i + 1;
    }
    proof {
        assert(all.take(i as int) =~= all);
        assert(whole.take(i as int) =~= whole);
    }
    let listed = text::join(&literals, ", ");
    let values = text::join(&list_columns(&names, true), ", ");
    text::join5(
        "json_object(ARRAY[",
        listed.as_str(),
        "]::text[], ARRAY[",
        values.as_str(),
        "]::text[])::text",
    )
}

fn list_columns(keys: &Vec<String>, as_text: bool) -> (list: Vec<String>)
    ensures
        text::texts(list@) == (if as_text {
            text_columns(text::texts(keys@))
        } else {
            order_columns(text::texts(keys@))
        }),
{
    let ghost whole = if as_text {
        text_columns(text::texts(keys@))
    } else {
        order_columns(text::texts(keys@))
    };
    let mut list: Vec<String> = Vec::new();
    let mut i: usize = 0;
    while i < keys.len()
        invariant
            i <= keys@.len(),
            whole == (if as_text {
                text_columns(text::texts(keys@))
            } else {
                order_columns(text::texts(keys@))
            }),
            text::texts(list@) == whole.take(i as int),
        decreases keys.len() - i,
    {
        let quoted = parser::quote_pg_identifier(keys[i].as_str());
        let one = if as_text {
            text::join3("t.", quoted.as_str(), "::text")
        } else {
            text::join2("t.", quoted.as_str())
        };
        let ghost before = text::texts(list@);
        let ghost seen = one@;
        list.push(one);
        proof {
            assert(text::texts(keys@)[i as int] == keys@[i as int]@);
            assert(text::texts(list@) =~= before.push(seen));
            assert(whole.take(i + 1) =~= whole.take(i as int).push(seen));
        }
        i = i + 1;
    }
    proof {
        assert(whole.take(i as int) =~= whole);
    }
    list
}

fn list_casts(types: &Vec<String>) -> (list: Vec<String>)
    ensures
        text::texts(list@) == cast_places(text::texts(types@)),
{
    let ghost whole = cast_places(text::texts(types@));
    let size = types.len();
    let mut list: Vec<String> = Vec::new();
    let mut i: usize = 0;
    while i < size
        invariant
            i <= size,
            size == types@.len(),
            whole == cast_places(text::texts(types@)),
            text::texts(list@) == whole.take(i as int),
        decreases size - i,
    {
        let one = text::join2(
            text::join3("$", text::decimal(i as u64 + 1).as_str(), "::text::").as_str(),
            types[i].as_str(),
        );
        let ghost before = text::texts(list@);
        let ghost seen = one@;
        list.push(one);
        proof {
            assert(text::texts(types@)[i as int] == types@[i as int]@);
            assert(text::texts(list@) =~= before.push(seen));
            assert(whole.take(i + 1) =~= whole.take(i as int).push(seen));
        }
        i = i + 1;
    }
    proof {
        assert(whole.take(i as int) =~= whole);
    }
    list
}

/// Whether a cursor holds one text for each key column.
pub open spec fn usable_cursor(cursor: Seq<char>, columns: nat) -> bool {
    json::strings_in(cursor) matches Ok(values) && values.len() == columns
}

/// What is told of a cursor that does not hold one text for each key column. Of one that is no
/// array of texts, the reason is added as the parser gives it.
pub open spec fn bad_cursor_text(cursor: Seq<char>, columns: nat) -> Seq<char> {
    match json::strings_in(cursor) {
        Ok(values) => "invalid postgres snapshot cursor: expected "@ + text::decimal_text(columns)
            + " key values, got "@ + text::decimal_text(values.len()),
        Err(reason) =>
        "invalid postgres snapshot cursor: expected JSON array of primary key values: "@ + reason,
    }
}

impl PostgresSnapshotHandle {
    /// The key values of a cursor: a JSON array of one text for each key column.
    pub fn decode_pk_cursor(cursor: &str, expected_columns: usize) -> (values: Result<
        Vec<String>,
        Error,
    >)
        ensures
            match values {
                Ok(values) => json::strings_in(cursor@) == Ok::<Seq<Seq<char>>, Seq<char>>(
                    text::texts(values@),
                ) && values@.len() == expected_columns,
                Err(error) => error is CheckpointError && !usable_cursor(
                    cursor@,
                    expected_columns as nat,
                ) && error.text() == bad_cursor_text(cursor@, expected_columns as nat),
            },
    {
        match json::parse_strings(cursor) {
            Ok(values) => {
                proof {
                    assert(text::texts(values@).len() == values@.len());
                }
                if values.len() == expected_columns {
                    Ok(values)
                } else {
                    Err(
                        Error::CheckpointError(
                            text::join2(
                                text::join3(
                                    "invalid postgres snapshot cursor: expected ",
                                    text::decimal(expected_columns as u64).as_str(),
                                    " key values, got ",
                                ).as_str(),
                                text::decimal(values.len() as u64).as_str(),
                            ),
                        ),
                    )
                }
            },
            Err(reason) => Err(
                Error::CheckpointError(
                    text::join2(
                        "invalid postgres snapshot cursor: expected JSON array of primary key values: ",
                        reason.as_str(),
                    ),
                ),
            ),
        }
    }

    /// The query for the rows that a chunk asked for, with the expression for a row's payload.
    pub fn live_query(
        &self,
        table_index: usize,
        row_expression: &str,
        cursor: Option<&str>,
        limit: usize,
    ) -> (query: Result<LiveQuery, Error>)
        requires
            table_index < self.tables@.len(),
        ensures
            ({
                let table = self.tables@[table_index as int]@;
                let name = parser::table_named(table.snapshot.table);
                let keyed = 0 < table.keys.len() < usize::MAX && table.keys.len()
                    == table.key_types.len();
                match query {
                    Ok(query) => {
                        &&& self.connected
                        &&& name is Some
                        &&& limit <= i64::MAX
                        &&& query.limit == limit
                        &&& keyed
                        &&& query.statement@ == live_statement(
                            parser::qualified_name((name->0).0, (name->0).1),
                            table.keys,
                            table.key_types,
                            row_expression@,
                            cursor is Some,
                        )
                        &&& match (cursor, query.cursor) {
                            (Some(source), Some(values)) => json::strings_in(source@) == Ok::<
                                Seq<Seq<char>>,
                                Seq<char>,
                            >(text::texts(values@)) && values@.len() == table.keys.len(),
                            (None, None) => true,
                            _ => false,
                        }
                    },
                    Err(Error::StateError(message)) => !self.connected && message@
                        == "postgres snapshot live query requires an active client connection"@,
                    Err(Error::ConfigError(message)) => self.connected && name is None && message@
                        == parser::bad_reference_text(table.snapshot.table),
                    Err(Error::SourceError(message)) => {
                        &&& self.connected
                        &&& name is Some
                        &&& if limit > i64::MAX {
                            message@ == "snapshot chunk size exceeds i64 limit: "@
                                + text::decimal_text(limit as nat)
                        } else if !keyed {
                            message@
                                == "missing or invalid primary key metadata for snapshot table '"@
                                + (name->0).0 + "."@ + (name->0).1 + "'"@
                        } else {
                            cursor matches Some(source) && !usable_cursor(
                                source@,
                                table.keys.len(),
                            ) && message@ == "invalid snapshot cursor for table '"@
                                + table.snapshot.table + "': "@ + bad_cursor_text(
                                source@,
                                table.keys.len(),
                            )
                        }
                    },
                    Err(_) => false,
                }
            }),
    {
        if !self.connected {
            return Err(
                Error::StateError(
                    "postgres snapshot live query requires an active client connection".to_owned(),
                ),
            );
        }
        let table = &self.tables[table_index];
        let (schema_name, name) = match parser::parse_table_reference(
            table.snapshot.table.as_str(),
        ) {
            Ok(found) => found,
            Err(error) => {
                return Err(error);
            },
        };
        if limit as u64 > i64::MAX as u64 {
            return Err(
                Error::SourceError(
                    text::join2(
                        "snapshot chunk size exceeds i64 limit: ",
                        text::decimal(limit as u64).as_str(),
                    ),
                ),
            );
        }
        let width = table.primary_key_columns.len();
        proof {
            assert(table@.keys.len() == width);
            assert(table@.key_types.len() == table.primary_key_types@.len());
        }
        if width == 0 || width == usize::MAX || width != table.primary_key_types.len() {
            return Err(
                Error::SourceError(
                    text::join5(
                        "missing or invalid primary key metadata for snapshot table '",
                        schema_name.as_str(),
                        ".",
                        name.as_str(),
                        "'",
                    ),
                ),
            );
        }
        let values = match cursor {
            None => None,
            Some(source) => match PostgresSnapshotHandle::decode_pk_cursor(source, width) {
                Ok(values) => Some(values),
                Err(error) => {
                    return Err(
                        Error::SourceError(
                            text::join2(
                                text::join3(
                                    "invalid snapshot cursor for table '",
                                    table.snapshot.table.as_str(),
                                    "': ",
                                ).as_str(),
                                error.message(),
                            ),
                        ),
                    );
                },
            },
        };
        let order = text::join(&list_columns(&table.primary_key_columns, false), ", ");
        let keys = text::join(&list_columns(&table.primary_key_columns, true), ", ");
        let mut statement = "SELECT ARRAY[".to_owned();
        statement.append(keys.as_str());
        statement.append("], ");
        statement.append(row_expression);
        statement.append(" FROM ");
        statement.append(
            parser::qualified_table_name(schema_name.as_str(), name.as_str()).as_str(),
        );
        statement.append(" t ");
        if values.is_some() {
            let casts = text::join(&list_casts(&table.primary_key_types), ", ");
            statement.append("WHERE (");
            statement.append(order.as_str());
            statement.append(") > (");
            statement.append(casts.as_str());
            statement.append(") ORDER BY ");
            statement.append(order.as_str());
            statement.append(" LIMIT $");
            statement.append(text::decimal(width as u64 + 1).as_str());
        } else {
            statement.append("ORDER BY ");
            statement.append(order.as_str());
            statement.append(" LIMIT $1");
        }
        Ok(LiveQuery { statement, cursor: values, limit: limit as i64 })
    }

    /// The `schema.table` of a table.
    pub open spec fn full_name(self, table_index: int) -> Seq<char> {
        let name = parser::configured_table(self.tables@[table_index].snapshot.table@);
        name.0 + "."@ + name.1
    }

    fn name_in_full(&self, table_index: usize) -> (name: String)
        requires
            table_index < self.tables@.len(),
        ensures
            name@ == self.full_name(table_index as int),
    {
        let (schema_name, name) = parser::split_qualified_table_name(
            self.tables[table_index].snapshot.table.as_str(),
        );
        text::join3(schema_name.as_str(), ".", name.as_str())
    }

    /// The key of a row: no part of it may be null.
    pub fn row_key(&self, table_index: usize, values: Vec<Option<String>>) -> (key: Result<
        Vec<String>,
        Error,
    >)
        requires
            table_index < self.tables@.len(),
        ensures
            match key {
                Ok(key) => key@.len() == values@.len() && forall|i: int|
                    0 <= i < values@.len() ==> (#[trigger] values@[i] matches Some(value)
                        && value@ == key@[i]@),
                Err(error) => error is SourceError && error.text()
                    == "primary key column returned null value for table '"@ + self.full_name(
                    table_index as int,
                ) + "'"@ && exists|i: int| 0 <= i < values@.len() && #[trigger] values@[i] is None,
            },
    {
        let mut key: Vec<String> = Vec::new();
        let mut i: usize = 0;
        while i < values.len()
            invariant
                i <= values@.len(),
                key@.len() == i,
                table_index < self.tables@.len(),
                forall|k: int|
                    0 <= k < i ==> (#[trigger] values@[k] matches Some(value) && value@
                        == key@[k]@),
            decreases values.len() - i,
        {
            match &values[i] {
                Some(value) => {
                    key.push(value.clone());
                },
                None => {
                    return Err(
                        Error::SourceError(
                            text::join3(
                                "primary key column returned null value for table '",
                                self.name_in_full(table_index).as_str(),
                                "'",
                            ),
                        ),
                    );
                },
            }
            i = i + 1;
        }
        Ok(key)
    }

    /// The payload of a row of a table, read from its text; see [`live_row`].
    pub fn row_payload(&self, table_index: usize, source: &str) -> (payload: Result<
        serde_json::Value,
        Error,
    >)
        requires
            table_index < self.tables@.len(),
        ensures
            match payload {
                Ok(payload) => json::value_in(source@) == Ok::<Json, Seq<char>>(
                    json::json(payload),
                ),
                Err(error) => error is SerializationError && (json::value_in(source@) matches Err(
                    reason,
                ) && error.text() == undecoded_row_text(
                    self.full_name(table_index as int),
                    reason,
                )),
            },
    {
        live_row(self.name_in_full(table_index).as_str(), source)
    }
}

/// What is told of a row that cannot be read, for the reason that the parser gives.
pub open spec fn undecoded_row_text(table: Seq<char>, reason: Seq<char>) -> Seq<char> {
    "failed decoding live snapshot JSON row for table '"@ + table + "': "@ + reason
}

/// A row of a table, read from the text of its JSON object.
pub fn live_row(table: &str, source: &str) -> (payload: Result<serde_json::Value, Error>)
    ensures
        match payload {
            Ok(payload) => json::value_in(source@) == Ok::<Json, Seq<char>>(json::json(payload)),
            Err(error) => error is SerializationError && (json::value_in(source@) matches Err(
                reason,
            ) && error.text() == undecoded_row_text(table@, reason)),
        },
{
    match json::parse_value(source) {
        Ok(payload) => Ok(payload),
        Err(reason) => {
            let mut told = text::join3(
                "failed decoding live snapshot JSON row for table '",
                table,
                "': ",
            );
            told.append(reason.as_str());
            Err(Error::SerializationError(told))
        },
    }
}

// Checkpoints

/// What a checkpoint keeps of a bulk snapshot.
#[derive(Debug, PartialEq, Eq)]
pub struct SnapshotCheckpointState {
    pub snapshot_id: String,
    pub snapshot_start_ts: u64,
    pub snapshot_end_ts: u64,
    pub snapshot_watermark: u64,
    pub current_table: usize,
    pub next_chunk_index: u32,
    pub tables: Vec<TableSnapshot>,
}

/// What a [`SnapshotCheckpointState`] holds.
pub struct CheckpointView {
    pub snapshot_id: Seq<char>,
    pub snapshot_start_ts: u64,
    pub snapshot_end_ts: u64,
    pub watermark: u64,
    pub current: nat,
    pub chunk_index: u32,
    pub tables: Seq<TableSnapshotView>,
}

impl View for SnapshotCheckpointState {
    type V = CheckpointView;

    open spec fn view(&self) -> CheckpointView {
        CheckpointView {
            snapshot_id: self.snapshot_id@,
            snapshot_start_ts: self.snapshot_start_ts,
            snapshot_end_ts: self.snapshot_end_ts,
            watermark: self.snapshot_watermark,
            current: self.current_table as nat,
            chunk_index: self.next_chunk_index,
            tables: snapshot::snapshot_views(self.tables@),
        }
    }
}

/// How many rows some tables have processed.
pub open spec fn processed(tables: Seq<TableSnapshotView>) -> nat
    decreases tables.len(),
{
    if tables.len() == 0 {
        0
    } else {
        processed(tables.drop_last()) + tables.last().rows_processed as nat
    }
}

/// How many rows some tables held when the snapshot began.
pub open spec fn expected(tables: Seq<TableSnapshotView>) -> nat
    decreases tables.len(),
{
    if tables.len() == 0 {
        0
    } else {
        expected(tables.drop_last()) + tables.last().total_rows as nat
    }
}

/// The place of the first table that is not complete, from a place on.
pub open spec fn first_incomplete(tables: Seq<TableSnapshotView>, from: int) -> int
    decreases tables.len() - from,
{
    if from < 0 || from >= tables.len() || !tables[from].is_complete {
        from
    } else {
        first_incomplete(tables, from + 1)
    }
}

/// Whether a table can go on from its saved progress: it is the same table, with a cursor for its
/// key or the rows that the progress speaks of.
pub open spec fn fits(table: TableView, saved: TableSnapshotView) -> bool {
    &&& table.snapshot.table == saved.table
    &&& if table.live {
        saved.cursor_position matches Some(cursor) ==> usable_cursor(cursor, table.keys.len())
    } else {
        saved.rows_processed <= table.rows.len()
    }
}

/// Whether a snapshot can go on from a checkpoint.
pub open spec fn resumable(tables: Seq<TableView>, saved: CheckpointView) -> bool {
    &&& tables.len() == saved.tables.len()
    &&& forall|i: int| 0 <= i < tables.len() ==> fits(#[trigger] tables[i], saved.tables[i])
    &&& saved.current == first_incomplete(saved.tables, 0)
}

/// The place of the first table that cannot go on from its saved progress, from a place on, or the
/// number of tables.
pub open spec fn first_misfit(
    tables: Seq<TableView>,
    saved: Seq<TableSnapshotView>,
    from: int,
) -> int
    decreases tables.len() - from,
{
    if from < 0 || from >= tables.len() || !fits(tables[from], saved[from]) {
        from
    } else {
        first_misfit(tables, saved, from + 1)
    }
}

/// What is told of a table that cannot go on from its saved progress.
pub open spec fn misfit_text(table: TableView, saved: TableSnapshotView, place: int) -> Seq<char> {
    if table.snapshot.table != saved.table {
        ("postgres snapshot checkpoint table mismatch at index "@ + text::decimal_text(
            place as nat,
        ) + ": expected '"@) + table.snapshot.table + "' got '"@ + saved.table + "'"@
    } else if table.live {
        "invalid postgres snapshot cursor for table '"@ + saved.table + "': "@ + bad_cursor_text(
            saved.cursor_position->0,
            table.keys.len(),
        )
    } else if saved.rows_processed > usize::MAX {
        "rows_processed does not fit into usize for table "@ + saved.table
    } else {
        "rows_processed exceeds available rows for table "@ + saved.table
    }
}

/// What is told of a checkpoint that a snapshot cannot go on from: of the first thing that is
/// found.
pub open spec fn bad_checkpoint_text(tables: Seq<TableView>, saved: CheckpointView) -> Seq<char> {
    let misfit = first_misfit(tables, saved.tables, 0);
    if tables.len() != saved.tables.len() {
        "postgres snapshot checkpoint table count does not match snapshot handle"@
    } else if misfit < tables.len() {
        misfit_text(tables[misfit], saved.tables[misfit], misfit)
    } else {
        "postgres snapshot checkpoint current_table mismatch: saved="@ + text::decimal_text(
            saved.current,
        ) + " derived="@ + text::decimal_text(first_incomplete(saved.tables, 0) as nat)
            + " from table completion state"@
    }
}

/// A table with its saved progress.
pub open spec fn resumed_table(table: TableView, saved: TableSnapshotView) -> TableView {
    TableView {
        snapshot: saved,
        next_row: if table.live {
            0
        } else {
            saved.rows_processed as int
        },
        ..table
    }
}

/// A snapshot with its saved progress.
pub open spec fn resumed(state: SnapView, saved: CheckpointView) -> SnapView {
    SnapView {
        tables: Seq::new(
            state.tables.len(),
            |i: int| resumed_table(state.tables[i], saved.tables[i]),
        ),
        current: saved.current,
        chunk_index: saved.chunk_index,
        emitted: snapshot::counted(0, processed(saved.tables) as int),
        emitted_in_run: 0,
    }
}

fn clone_snapshots(tables: &Vec<TableSnapshot>) -> (copy: Vec<TableSnapshot>)
    ensures
        snapshot::snapshot_views(copy@) == snapshot::snapshot_views(tables@),
{
    let ghost whole = snapshot::snapshot_views(tables@);
    let mut copy: Vec<TableSnapshot> = Vec::new();
    let mut i: usize = 0;
    while i < tables.len()
        invariant
            i <= tables@.len(),
            whole == snapshot::snapshot_views(tables@),
            snapshot::snapshot_views(copy@) == whole.take(i as int),
        decreases tables.len() - i,
    {
        let one = tables[i].clone();
        let ghost before = snapshot::snapshot_views(copy@);
        let ghost seen = one@;
        copy.push(one);
        proof {
            assert(snapshot::snapshot_views(copy@) =~= before.push(seen));
            assert(whole.take(i + 1) =~= whole.take(i as int).push(seen));
        }
        i = i + 1;
    }
    proof {
        assert(whole.take(i as int) =~= whole);
    }
    copy
}

proof fn lemma_first_incomplete(tables: Seq<TableSnapshotView>, from: int)
    requires
        0 <= from <= tables.len(),
    ensures
        from <= first_incomplete(tables, from) <= tables.len(),
    decreases tables.len() - from,
{
    if from < tables.len() && tables[from].is_complete {
        lemma_first_incomplete(tables, from + 1);
    }
}

fn derive_current_table_from_progress(tables: &Vec<TableSnapshot>) -> (place: usize)
    ensures
        place as int == first_incomplete(snapshot::snapshot_views(tables@), 0),
        place <= tables@.len(),
{
    let ghost views = snapshot::snapshot_views(tables@);
    let size = tables.len();
    let mut i: usize = 0;
    while i < size && tables[i].is_complete
        invariant
            i <= size,
            size == tables@.len(),
            views == snapshot::snapshot_views(tables@),
            first_incomplete(views, 0) == first_incomplete(views, i as int),
        decreases size - i,
    {
        proof {
            assert(views[i as int] == tables@[i as int]@);
        }
        i = i + 1;
    }
    proof {
        if i < size {
            assert(views[i as int] == tables@[i as int]@);
        }
    }
    i
}

/// Whether a table can go on from its saved progress, and from which row.
fn check_table(table: &TableSnapshotState, saved: &TableSnapshot, place: usize) -> (next: Result<
    usize,
    Error,
>)
    ensures
        match next {
            Ok(next) => fits(table@, saved@) && next as int == resumed_table(
                table@,
                saved@,
            ).next_row && (!table.live_query ==> next <= table.rows@.len()),
            Err(error) => error is CheckpointError && !fits(table@, saved@) && error.text()
                == misfit_text(table@, saved@, place as int),
        },
{
    proof {
        assert(table@.keys.len() == table.primary_key_columns@.len());
        assert(table@.rows.len() == table.rows@.len());
    }
    if !text::same_text(table.snapshot.table.as_str(), saved.table.as_str()) {
        return Err(
            Error::CheckpointError(
                text::join5(
                    text::join3(
                        "postgres snapshot checkpoint table mismatch at index ",
                        text::decimal(place as u64).as_str(),
                        ": expected '",
                    ).as_str(),
                    table.snapshot.table.as_str(),
                    "' got '",
                    saved.table.as_str(),
                    "'",
                ),
            ),
        );
    }
    if table.live_query {
        match &saved.cursor_position {
            Some(cursor) => {
                match PostgresSnapshotHandle::decode_pk_cursor(
                    cursor.as_str(),
                    table.primary_key_columns.len(),
                ) {
                    Ok(_) => {},
                    Err(error) => {
                        proof {
                            assert(saved@.cursor_position == Some(cursor@));
                        }
                        return Err(
                            Error::CheckpointError(
                                text::join2(
                                    text::join3(
                                        "invalid postgres snapshot cursor for table '",
                                        saved.table.as_str(),
                                        "': ",
                                    ).as_str(),
                                    error.message(),
                                ),
                            ),
                        );
                    },
                }
            },
            None => {},
        }
        return Ok(0);
    }
    let size = table.rows.len();
    if saved.rows_processed > usize::MAX as u64 {
        return Err(
            Error::CheckpointError(
                text::join2(
                    "rows_processed does not fit into usize for table ",
                    saved.table.as_str(),
                ),
            ),
        );
    }
    if saved.rows_processed as usize > size {
        return Err(
            Error::CheckpointError(
                text::join2(
                    "rows_processed exceeds available rows for table ",
                    saved.table.as_str(),
                ),
            ),
        );
    }
    Ok(saved.rows_processed as usize)
}

impl PostgresSnapshotHandle {
    /// What a checkpoint keeps of this snapshot.
    pub fn checkpoint_state(&self) -> (state: SnapshotCheckpointState)
        ensures
            state@ == (CheckpointView {
                snapshot_id: self.snapshot.snapshot_id@,
                snapshot_start_ts: self.snapshot.snapshot_start_ts,
                snapshot_end_ts: self.snapshot.snapshot_end_ts,
                watermark: self.snapshot_watermark,
                current: self.current_table as nat,
                chunk_index: self.next_chunk_index,
                tables: snapshot::snapshot_views(self.snapshot.tables@),
            }),
    {
        SnapshotCheckpointState {
            snapshot_id: self.snapshot.snapshot_id.clone(),
            snapshot_start_ts: self.snapshot.snapshot_start_ts,
            snapshot_end_ts: self.snapshot.snapshot_end_ts,
            snapshot_watermark: self.snapshot_watermark,
            current_table: self.current_table,
            next_chunk_index: self.next_chunk_index,
            tables: clone_snapshots(&self.snapshot.tables),
        }
    }

    /// The source type that a checkpoint of this snapshot is kept under.
    pub fn checkpoint_source(&self) -> (source: String)
        ensures
            source@ == self.source_name@ + "_snapshot"@,
    {
        text::join2(self.source_name.as_str(), "_snapshot")
    }

    /// Goes on from a checkpoint; see [`resumable`].
    pub fn resume_from_checkpoint(self, saved: SnapshotCheckpointState) -> (handle: Result<
        Self,
        Error,
    >)
        ensures
            match handle {
                Ok(handle) => {
                    &&& resumable(self.progress().tables, saved@)
                    &&& handle.progress() == resumed(self.progress(), saved@)
                    &&& handle.wf()
                    &&& handle.settings() == (snapshot::SnapSettings {
                        source_name: self.source_name@,
                        snapshot_id: saved@.snapshot_id,
                        watermark: saved@.watermark,
                        connected: self.connected,
                    })
                    &&& handle.snapshot.snapshot_start_ts == saved@.snapshot_start_ts
                    &&& handle.snapshot.snapshot_end_ts == saved@.snapshot_end_ts
                    &&& handle.transaction_open == self.transaction_open
                    &&& snapshot::snapshot_views(handle.snapshot.tables@) == saved@.tables
                },
                Err(error) => error is CheckpointError && !resumable(
                    self.progress().tables,
                    saved@,
                ) && error.text() == bad_checkpoint_text(self.progress().tables, saved@),
            },
    {
        let mut handle = self;
        let ghost start = handle.progress();
        let ghost wanted = saved@;
        if saved.tables.len() != handle.tables.len() {
            return Err(
                Error::CheckpointError(
                    "postgres snapshot checkpoint table count does not match snapshot handle".to_owned(),
                ),
            );
        }
        handle.snapshot.snapshot_id = saved.snapshot_id;
        handle.snapshot.snapshot_start_ts = saved.snapshot_start_ts;
        handle.snapshot.snapshot_end_ts = saved.snapshot_end_ts;
        handle.snapshot_watermark = saved.snapshot_watermark;
        handle.next_chunk_index = saved.next_chunk_index;
        let mut emitted: u64 = 0;
        let ghost goal = resumed(start, wanted);
        let ghost fixed = handle;
        let mut i: usize = 0;
        proof {
            assert(wanted.tables.take(0) =~= Seq::empty());
        }
        while i < handle.tables.len()
            invariant
                i <= handle.tables@.len(),
                handle.tables@.len() == start.tables.len(),
                start.tables.len() == wanted.tables.len(),
                wanted.tables == snapshot::snapshot_views(saved.tables@),
                start == self.progress(),
                wanted == saved@,
                goal == resumed(start, wanted),
                handle.source_name == self.source_name,
                handle.connected == self.connected,
                handle.transaction_open == self.transaction_open,
                handle.snapshot == fixed.snapshot,
                handle.snapshot_watermark == fixed.snapshot_watermark,
                handle.next_chunk_index == fixed.next_chunk_index,
                emitted == snapshot::counted(0, processed(wanted.tables.take(i as int)) as int),
                first_misfit(start.tables, wanted.tables, 0) == first_misfit(
                    start.tables,
                    wanted.tables,
                    i as int,
                ),
                forall|k: int|
                    0 <= k < i ==> fits(#[trigger] start.tables[k], wanted.tables[k])
                        && handle.tables@[k]@ == goal.tables[k] && handle.tables@[k].next_row
                        <= handle.tables@[k].rows@.len(),
                forall|k: int|
                    i <= k < start.tables.len() ==> #[trigger] handle.tables@[k]@
                        == start.tables[k],
            decreases handle.tables.len() - i,
        {
            let ghost p = i as int;
            proof {
                assert(handle.tables@[p]@ == start.tables[p]);
                assert(wanted.tables[p] == saved.tables@[p]@);
                assert(wanted.tables.take(p + 1).drop_last() =~= wanted.tables.take(p));
            }
            let next = match check_table(&handle.tables[i], &saved.tables[i], i) {
                Ok(next) => next,
                Err(error) => {
                    return Err(error);
                },
            };
            let kept = saved.tables[i].clone();
            let rows_processed = kept.rows_processed;
            let ghost earlier = handle.tables@;
            let one = &mut handle.tables[i];
            one.snapshot = kept;
            one.next_row = next;
            emitted = emitted.saturating_add(rows_processed);
            proof {
                assert(fits(start.tables[p], wanted.tables[p]));
                assert(handle.tables@[p]@ == goal.tables[p]);
                assert(handle.tables@[p].next_row <= handle.tables@[p].rows@.len());
                assert forall|k: int| 0 <= k < i + 1 implies fits(
                    #[trigger] start.tables[k],
                    wanted.tables[k],
                ) && handle.tables@[k]@ == goal.tables[k] && handle.tables@[k].next_row
                    <= handle.tables@[k].rows@.len() by {
                    if k < p {
                        assert(handle.tables@[k] == earlier[k]);
                    }
                }
            }
            i = i + 1;
        }
        handle.emitted_rows = emitted;
        handle.emitted_in_run = 0;
        let current = derive_current_table_from_progress(&saved.tables);
        if saved.current_table != current {
            return Err(
                Error::CheckpointError(
                    text::join5(
                        "postgres snapshot checkpoint current_table mismatch: saved=",
                        text::decimal(saved.current_table as u64).as_str(),
                        " derived=",
                        text::decimal(current as u64).as_str(),
                        " from table completion state",
                    ),
                ),
            );
        }
        handle.current_table = current;
        proof {
            assert(wanted.tables.take(i as int) =~= wanted.tables);
            assert(handle.progress().tables =~= goal.tables);
            assert forall|k: int| 0 <= k < handle.tables@.len() implies (
            #[trigger] handle.tables@[k]).next_row <= handle.tables@[k].rows@.len() by {
                assert(fits(start.tables[k], wanted.tables[k]));
            }
        }
        let ghost synced = handle.progress().tables.map_values(
            |table: TableView| table.snapshot,
        );
        handle.sync_snapshot_tables();
        proof {
            assert(synced =~= wanted.tables);
        }
        Ok(handle)
    }

    /// How many rows the tables held when the snapshot began.
    pub fn total_expected_rows(&self) -> (total: u128)
        ensures
            total as nat == expected(
                self.progress().tables.map_values(|table: TableView| table.snapshot),
            ),
    {
        let ghost views = self.progress().tables.map_values(|table: TableView| table.snapshot);
        let mut total: u128 = 0;
        let mut i: usize = 0;
        proof {
            assert(views.take(0) =~= Seq::empty());
        }
        while i < self.tables.len()
            invariant
                i <= self.tables@.len(),
                views == self.progress().tables.map_values(|table: TableView| table.snapshot),
                total as nat == expected(views.take(i as int)),
                total <= i * 0xffff_ffff_ffff_ffff,
            decreases self.tables.len() - i,
        {
            proof {
                assert(self.progress().tables[i as int] == self.tables@[i as int]@);
                assert(views.take(i + 1).drop_last() =~= views.take(i as int));
                assert(i * 0xffff_ffff_ffff_ffff + 0xffff_ffff_ffff_ffff <= u128::MAX)
                    by (nonlinear_arith)
                    requires
                        i < usize::MAX,
                        usize::MAX <= 0xffff_ffff_ffff_ffff,
                ;
            }
            total = total + self.tables[i].snapshot.total_rows as u128;
            i = i + 1;
        }
        proof {
            assert(views.take(i as int) =~= views);
        }
        total
    }

    /// How many rows the tables have processed.
    pub fn total_processed_rows(&self) -> (total: u128)
        ensures
            total as nat == processed(
                self.progress().tables.map_values(|table: TableView| table.snapshot),
            ),
    {
        let ghost views = self.progress().tables.map_values(|table: TableView| table.snapshot);
        let mut total: u128 = 0;
        let mut i: usize = 0;
        proof {
            assert(views.take(0) =~= Seq::empty());
        }
        while i < self.tables.len()
            invariant
                i <= self.tables@.len(),
                views == self.progress().tables.map_values(|table: TableView| table.snapshot),
                total as nat == processed(views.take(i as int)),
                total <= i * 0xffff_ffff_ffff_ffff,
            decreases self.tables.len() - i,
        {
            proof {
                assert(self.progress().tables[i as int] == self.tables@[i as int]@);
                assert(views.take(i + 1).drop_last() =~= views.take(i as int));
                assert(i * 0xffff_ffff_ffff_ffff + 0xffff_ffff_ffff_ffff <= u128::MAX)
                    by (nonlinear_arith)
                    requires
                        i < usize::MAX,
                        usize::MAX <= 0xffff_ffff_ffff_ffff,
                ;
            }
            total = total + self.tables[i].snapshot.rows_processed as u128;
            i = i + 1;
        }
        proof {
            assert(views.take(i as int) =~= views);
        }
        total
    }

    /// Whether rows of some table come from the server.
    pub fn has_live_query_tables(&self) -> (yes: bool)
        ensures
            yes == (exists|i: int|
                0 <= i < self.tables@.len() && (#[trigger] self.tables@[i]).live_query),
    {
        let mut i: usize = 0;
        while i < self.tables.len()
            invariant
                i <= self.tables@.len(),
                forall|k: int| 0 <= k < i ==> !(#[trigger] self.tables@[k]).live_query,
            decreases self.tables.len() - i,
        {
            if self.tables[i].live_query {
                return true;
            }
            i = i + 1;
        }
        false
    }

    /// Checks that every row was emitted, once: the tables' counts add up to the rows emitted, and
    /// to the rows expected where no table is read live. A live table may gain and lose rows
    /// while it is read. Brings the durable record up to date.
    pub fn check_finished(&mut self) -> (checked: Result<(), Error>)
        requires
            old(self).wf(),
        ensures
            final(self).wf(),
            final(self).progress() == old(self).progress(),
            final(self).settings() == old(self).settings(),
            final(self).transaction_open == old(self).transaction_open,
            snapshot::snapshot_views(final(self).snapshot.tables@) == old(
                self,
            ).progress().tables.map_values(|table: TableView| table.snapshot),
            final(self).snapshot.snapshot_start_ts == old(self).snapshot.snapshot_start_ts,
            final(self).snapshot.snapshot_end_ts == old(self).snapshot.snapshot_end_ts,
            ({
                let tables = old(self).progress().tables.map_values(
                    |table: TableView| table.snapshot,
                );
                let live = exists|i: int|
                    0 <= i < old(self).tables@.len() && (#[trigger] old(
                        self,
                    ).tables@[i]).live_query;
                match checked {
                    Ok(_) => processed(tables) == old(self).emitted_rows && (live || expected(
                        tables,
                    ) == processed(tables)),
                    Err(error) => {
                        &&& error is SourceError
                        &&& if processed(tables) != old(self).emitted_rows {
                            error.text()
                                == "postgres snapshot consistency check failed: emitted_rows="@
                                + text::decimal_text(old(self).emitted_rows as nat)
                        } else {
                            !live && expected(tables) != processed(tables) && error.text()
                                == "postgres snapshot consistency check failed: not all rows were emitted"@
                        }
                    },
                }
            }),
    {
        self.sync_snapshot_tables();
        let total = self.total_processed_rows();
        if total != self.emitted_rows as u128 {
            return Err(
                Error::SourceError(
                    text::join2(
                        "postgres snapshot consistency check failed: emitted_rows=",
                        text::decimal(self.emitted_rows).as_str(),
                    ),
                ),
            );
        }
        if !self.has_live_query_tables() && self.total_expected_rows() != total {
            return Err(
                Error::SourceError(
                    "postgres snapshot consistency check failed: not all rows were emitted".to_owned(),
                ),
            );
        }
        Ok(())
    }
}

} // verus!
