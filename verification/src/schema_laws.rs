//! What a schema event says of its table: every column with its type and nullability, the key, and
//! the statement, each under its own name.
use vstd::prelude::*;
use crate::event::{BeforeView, Operation};
use crate::json::Json;
use crate::schema;
use crate::schema::{CatalogColumnView, ColumnView, DdlView, ShapeView};
use crate::text;

verus! {

/// A shape has the catalog's columns, in the catalog's order, with the types and the nullability
/// that the catalog declares. A column is of the key exactly where the key names it.
pub proof fn shape_is_the_catalogs(
    schema_name: Seq<char>,
    table: Seq<char>,
    columns: Seq<CatalogColumnView>,
    keys: Seq<Seq<char>>,
    place: int,
)
    requires
        0 <= place < columns.len(),
    ensures
        ({
            let shape = schema::catalog_shape(schema_name, table, columns, keys);
            &&& shape.schema == schema_name
            &&& shape.table == table
            &&& shape.primary_keys == keys
            &&& shape.columns.len() == columns.len()
            &&& shape.columns[place].name == columns[place].name
            &&& shape.columns[place].data_type == columns[place].data_type
            &&& shape.columns[place].nullable == columns[place].nullable
            &&& shape.columns[place].is_primary_key <==> keys.contains(columns[place].name)
            &&& shape.version == 0
        }),
{
}

/// A column's payload says its name, its type, whether it takes nulls, and whether it is of the
/// primary key.
pub proof fn column_payload_says_what_the_column_is(column: ColumnView)
    ensures
        ({
            let members = schema::column_json(column).members();
            &&& members.contains_key("name"@) && members["name"@] == Json::Text(column.name)
            &&& members.contains_key("data_type"@) && members["data_type"@] == Json::Text(
                column.data_type,
            )
            &&& members.contains_key("nullable"@) && members["nullable"@] == Json::Bool(
                column.nullable,
            )
            &&& members.contains_key("constraints"@)
            &&& column.is_primary_key ==> members["constraints"@] == Json::Array(
                seq![Json::Text("primary_key"@)],
            )
            &&& !column.is_primary_key ==> members["constraints"@] == Json::Array(
                Seq::<Json>::empty(),
            )
        }),
{
    reveal_strlit("name");
    reveal_strlit("data_type");
    reveal_strlit("nullable");
    reveal_strlit("constraints");
    assert("name"@.len() == 4 && "data_type"@.len() == 9 && "nullable"@.len() == 8
        && "constraints"@.len() == 11);
}

/// A shape's payload names the table and its schema, and lists every column and every key column in
/// order.
pub proof fn shape_payload_says_what_the_table_is(shape: ShapeView)
    ensures
        ({
            let members = schema::shape_json(shape).members();
            &&& members.contains_key("schema"@) && members["schema"@] == Json::Text(shape.schema)
            &&& members.contains_key("table"@) && members["table"@] == Json::Text(shape.table)
            &&& members.contains_key("version"@) && members["version"@] == Json::Number(
                text::decimal_text(shape.version as nat),
            )
            &&& members.contains_key("columns"@)
            &&& members["columns"@] matches Json::Array(listed) && listed.len()
                == shape.columns.len() && forall|i: int|
                0 <= i < listed.len() ==> (#[trigger] listed[i]) == schema::column_json(
                    shape.columns[i],
                )
            &&& members.contains_key("primary_keys"@)
            &&& members["primary_keys"@] matches Json::Array(listed) && listed.len()
                == shape.primary_keys.len() && forall|i: int|
                0 <= i < listed.len() ==> (#[trigger] listed[i]) == Json::Text(
                    shape.primary_keys[i],
                )
        }),
{
    reveal_strlit("schema");
    reveal_strlit("table");
    reveal_strlit("columns");
    reveal_strlit("primary_keys");
    reveal_strlit("version");
    assert("schema"@.len() == 6 && "table"@.len() == 5 && "primary_keys"@.len() == 12);
    assert("columns"@.len() == 7 && "columns"@[0] == 'c');
    assert("version"@.len() == 7 && "version"@[0] == 'v');
}

/// A schema event is of a kind of its own, goes under its table's name with a suffix, hands over no
/// row, and carries what the statement is, of which table, and which shape it led to. Where it led
/// to a known shape, the event names it as the rows after it do.
pub proof fn schema_event_tells_the_statement(
    ddl: DdlView,
    source_name: Seq<char>,
    offset: Seq<char>,
    ts: u64,
)
    ensures
        ({
            let one = schema::ddl_event(ddl, source_name, offset, ts);
            &&& one.op == Operation::SchemaChange
            &&& one.before == BeforeView::Unavailable
            &&& one.schema == Some(ddl.schema)
            &&& one.table == ddl.table + "__ddl_events"@
            &&& one.primary_key is None
            &&& one.snapshot is None
            &&& one.transaction is None
            &&& one.unavailable_columns.len() == 0
            &&& one.ts == ts
            &&& one.source.timestamp == ts
            &&& one.source.offset == offset
            &&& one.source.source_name == source_name
            &&& one.envelope_version == 1
            &&& one.schema_id is Some <==> ddl.result_schema is Some
            &&& ddl.result_schema matches Some(shape) ==> one.schema_id == Some(
                schema::shape_text(shape),
            )
            &&& one.after matches Some(payload) && ({
                let members = payload.members();
                &&& members.contains_key("ddl_type"@) && members["ddl_type"@] == Json::Text(
                    ddl.ddl_type,
                )
                &&& members.contains_key("schema"@) && members["schema"@] == Json::Text(ddl.schema)
                &&& members.contains_key("table"@) && members["table"@] == Json::Text(ddl.table)
                &&& members.contains_key("statement"@) && members["statement"@] == Json::Text(
                    ddl.statement,
                )
                &&& members.contains_key("result_schema"@)
                &&& ddl.result_schema is None ==> members["result_schema"@] == Json::Null
                &&& ddl.result_schema matches Some(shape) ==> members["result_schema"@]
                    == schema::shape_json(shape)
                &&& members.contains_key("ts"@) && members["ts"@] == Json::Number(
                    text::decimal_text(ddl.ts as nat),
                )
            })
        }),
{
    reveal_strlit("ddl_type");
    reveal_strlit("schema");
    reveal_strlit("table");
    reveal_strlit("statement");
    reveal_strlit("result_schema");
    reveal_strlit("ts");
    assert("ddl_type"@.len() == 8 && "schema"@.len() == 6 && "table"@.len() == 5
        && "statement"@.len() == 9 && "result_schema"@.len() == 13 && "ts"@.len() == 2);
}

/// The events of two statements that differ in anything but their shapes and times differ in what
/// they carry.
pub proof fn schema_events_differ(a: DdlView, b: DdlView)
    requires
        schema::ddl_json(a) == schema::ddl_json(b),
    ensures
        a.ddl_type == b.ddl_type,
        a.schema == b.schema,
        a.table == b.table,
        a.statement == b.statement,
{
    schema_event_tells_the_statement(a, Seq::empty(), Seq::empty(), 0);
    schema_event_tells_the_statement(b, Seq::empty(), Seq::empty(), 0);
}

} // verus!
