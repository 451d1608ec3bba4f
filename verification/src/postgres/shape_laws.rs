//! What is told of a PostgreSQL table's shape: the types that numbers on the wire stand for, and the
//! columns and the key as the catalog has them.
use vstd::prelude::*;
use crate::postgres::decoder::{PgColumnView, RelationView};
use crate::postgres::lsn;
use crate::postgres::relation;
use crate::postgres::relation::IdentityFault;
use crate::schema;
use crate::schema::{CatalogColumn, CatalogColumnView, TableMap};
use crate::schema_laws;
use crate::text;

verus! {

// Types

/// Each number of a built-in type has the name that PostgreSQL gives the type; of any other number
/// nothing is known.
pub proof fn wire_types_have_their_names(oid: u32)
    ensures
        oid == 16 ==> relation::wire_type(oid) == "bool"@,
        oid == 17 ==> relation::wire_type(oid) == "bytea"@,
        oid == 18 ==> relation::wire_type(oid) == "char"@,
        oid == 19 ==> relation::wire_type(oid) == "name"@,
        oid == 20 ==> relation::wire_type(oid) == "int8"@,
        oid == 21 ==> relation::wire_type(oid) == "int2"@,
        oid == 23 ==> relation::wire_type(oid) == "int4"@,
        oid == 25 ==> relation::wire_type(oid) == "text"@,
        oid == 26 ==> relation::wire_type(oid) == "oid"@,
        oid == 700 ==> relation::wire_type(oid) == "float4"@,
        oid == 701 ==> relation::wire_type(oid) == "float8"@,
        oid == 790 ==> relation::wire_type(oid) == "money"@,
        oid == 869 ==> relation::wire_type(oid) == "inet"@,
        oid == 650 ==> relation::wire_type(oid) == "cidr"@,
        oid == 829 ==> relation::wire_type(oid) == "macaddr"@,
        oid == 774 ==> relation::wire_type(oid) == "macaddr8"@,
        oid == 1000 ==> relation::wire_type(oid) == "_bool"@,
        oid == 1001 ==> relation::wire_type(oid) == "_bytea"@,
        oid == 1002 ==> relation::wire_type(oid) == "_char"@,
        oid == 1005 ==> relation::wire_type(oid) == "_int2"@,
        oid == 1007 ==> relation::wire_type(oid) == "_int4"@,
        oid == 1009 ==> relation::wire_type(oid) == "_text"@,
        oid == 1014 ==> relation::wire_type(oid) == "_bpchar"@,
        oid == 1015 ==> relation::wire_type(oid) == "_varchar"@,
        oid == 1016 ==> relation::wire_type(oid) == "_int8"@,
        oid == 1017 ==> relation::wire_type(oid) == "_point"@,
        oid == 1021 ==> relation::wire_type(oid) == "_float4"@,
        oid == 1022 ==> relation::wire_type(oid) == "_float8"@,
        oid == 1042 ==> relation::wire_type(oid) == "bpchar"@,
        oid == 1043 ==> relation::wire_type(oid) == "varchar"@,
        oid == 1082 ==> relation::wire_type(oid) == "date"@,
        oid == 1083 ==> relation::wire_type(oid) == "time"@,
        oid == 1114 ==> relation::wire_type(oid) == "timestamp"@,
        oid == 1115 ==> relation::wire_type(oid) == "_timestamp"@,
        oid == 1184 ==> relation::wire_type(oid) == "timestamptz"@,
        oid == 1185 ==> relation::wire_type(oid) == "_timestamptz"@,
        oid == 1186 ==> relation::wire_type(oid) == "interval"@,
        oid == 1187 ==> relation::wire_type(oid) == "_interval"@,
        oid == 1231 ==> relation::wire_type(oid) == "_numeric"@,
        oid == 1266 ==> relation::wire_type(oid) == "timetz"@,
        oid == 1560 ==> relation::wire_type(oid) == "bit"@,
        oid == 1562 ==> relation::wire_type(oid) == "varbit"@,
        oid == 1700 ==> relation::wire_type(oid) == "numeric"@,
        oid == 2278 ==> relation::wire_type(oid) == "void"@,
        oid == 2950 ==> relation::wire_type(oid) == "uuid"@,
        oid == 2951 ==> relation::wire_type(oid) == "_uuid"@,
        oid == 3802 ==> relation::wire_type(oid) == "jsonb"@,
        oid == 3807 ==> relation::wire_type(oid) == "_jsonb"@,
        oid == 114 ==> relation::wire_type(oid) == "json"@,
        oid == 199 ==> relation::wire_type(oid) == "_json"@,
        oid == 142 ==> relation::wire_type(oid) == "xml"@,
        oid == 143 ==> relation::wire_type(oid) == "_xml"@,
        oid == 3614 ==> relation::wire_type(oid) == "tsvector"@,
        oid == 3615 ==> relation::wire_type(oid) == "tsquery"@,
        oid == 600 ==> relation::wire_type(oid) == "point"@,
        oid == 601 ==> relation::wire_type(oid) == "lseg"@,
        oid == 602 ==> relation::wire_type(oid) == "path"@,
        oid == 603 ==> relation::wire_type(oid) == "box"@,
        oid == 604 ==> relation::wire_type(oid) == "polygon"@,
        oid == 718 ==> relation::wire_type(oid) == "circle"@,
        !(oid == 16 || oid == 17 || oid == 18 || oid == 19 || oid == 20 || oid == 21 ||
            oid == 23 || oid == 25 || oid == 26 || oid == 700 || oid == 701 || oid == 790 ||
            oid == 869 || oid == 650 || oid == 829 || oid == 774 || oid == 1000 ||
            oid == 1001 || oid == 1002 || oid == 1005 || oid == 1007 || oid == 1009 ||
            oid == 1014 || oid == 1015 || oid == 1016 || oid == 1017 || oid == 1021 ||
            oid == 1022 || oid == 1042 || oid == 1043 || oid == 1082 || oid == 1083 ||
            oid == 1114 || oid == 1115 || oid == 1184 || oid == 1185 || oid == 1186 ||
            oid == 1187 || oid == 1231 || oid == 1266 || oid == 1560 || oid == 1562 ||
            oid == 1700 || oid == 2278 || oid == 2950 || oid == 2951 || oid == 3802 ||
            oid == 3807 || oid == 114 || oid == 199 || oid == 142 || oid == 143 ||
            oid == 3614 || oid == 3615 || oid == 600 || oid == 601 || oid == 602 ||
            oid == 603 || oid == 604 || oid == 718) ==> relation::wire_type(oid) == "unknown"@,
{
}

/// A column is described as the catalog declares it. A column that the catalog does not have keeps
/// its name and the type that the wire tells, and may be null.
pub proof fn columns_are_described_by_the_catalog(
    catalog: Seq<CatalogColumnView>,
    column: PgColumnView,
    place: int,
)
    ensures
        0 <= place < catalog.len() && catalog[place].name == column.name && (forall|i: int|
            0 <= i < place ==> (#[trigger] catalog[i]).name != column.name)
            ==> relation::described(Some(catalog), column) == catalog[place],
        (forall|i: int| 0 <= i < catalog.len() ==> (#[trigger] catalog[i]).name != column.name)
            ==> relation::described(Some(catalog), column) == (CatalogColumnView {
            name: column.name,
            data_type: relation::wire_type(column.type_oid),
            nullable: true,
        }),
        relation::described(None, column) == (CatalogColumnView {
            name: column.name,
            data_type: relation::wire_type(column.type_oid),
            nullable: true,
        }),
        relation::described(Some(catalog), column).name == column.name,
{
    lemma_catalog_column(catalog, column.name, place);
}

proof fn lemma_catalog_column(catalog: Seq<CatalogColumnView>, name: Seq<char>, place: int)
    ensures
        0 <= place < catalog.len() && catalog[place].name == name && (forall|i: int|
            0 <= i < place ==> (#[trigger] catalog[i]).name != name) ==> relation::catalog_column(
            catalog,
            name,
        ) == Some(catalog[place]),
        (forall|i: int| 0 <= i < catalog.len() ==> (#[trigger] catalog[i]).name != name)
            ==> relation::catalog_column(catalog, name) is None,
        relation::catalog_column(catalog, name) matches Some(found) ==> found.name == name,
    decreases catalog.len(),
{
    if catalog.len() > 0 {
        let less = catalog.drop_first();
        lemma_catalog_column(less, name, place - 1);
        if catalog[0].name != name {
            if 0 <= place < catalog.len() && catalog[place].name == name && (forall|i: int|
                0 <= i < place ==> (#[trigger] catalog[i]).name != name) {
                assert(place > 0);
                assert(less[place - 1] == catalog[place]);
                assert forall|i: int| 0 <= i < place - 1 implies (#[trigger] less[i]).name
                    != name by {
                    assert(catalog[i + 1] == less[i]);
                }
            }
            if forall|i: int| 0 <= i < catalog.len() ==> (#[trigger] catalog[i]).name != name {
                assert forall|i: int| 0 <= i < less.len() implies (#[trigger] less[i]).name
                    != name by {
                    assert(catalog[i + 1] == less[i]);
                }
            }
        }
    }
}

/// A published table's shape has exactly the columns that the stream sends, in the stream's order,
/// and names the table. Its key is the table's key; where there is none, no column is of the key.
pub proof fn shape_has_the_columns_that_are_sent(
    keys: TableMap<Vec<String>>,
    columns: TableMap<Vec<CatalogColumn>>,
    told: RelationView,
    place: int,
)
    requires
        0 <= place < told.columns.len(),
    ensures
        ({
            let shape = relation::shape_of(keys, columns, told);
            &&& shape.schema == told.namespace
            &&& shape.table == told.name
            &&& shape.columns.len() == told.columns.len()
            &&& shape.columns[place].name == told.columns[place].name
            &&& columns.found(told.namespace, told.name) is None
                ==> shape.columns[place].data_type == relation::wire_type(
                told.columns[place].type_oid,
            ) && shape.columns[place].nullable
            &&& columns.found(told.namespace, told.name) matches Some(found) ==> ({
                let one = relation::described(
                    Some(schema::catalog_views(found@)),
                    told.columns[place],
                );
                shape.columns[place].data_type == one.data_type && shape.columns[place].nullable
                    == one.nullable
            })
            &&& relation::key_of(keys, told) matches Some(key) ==> shape.primary_keys == key
            &&& relation::key_of(keys, told) is None ==> shape.primary_keys.len() == 0
            &&& shape.columns[place].is_primary_key <==> shape.primary_keys.contains(
                told.columns[place].name,
            )
        }),
{
    let described = relation::described_columns(columns, told);
    let key = match relation::key_of(keys, told) {
        Some(key) => key,
        None => Seq::empty(),
    };
    schema_laws::shape_is_the_catalogs(told.namespace, told.name, described, key, place);
    match columns.found(told.namespace, told.name) {
        Some(found) => {
            columns_are_described_by_the_catalog(
                schema::catalog_views(found@),
                told.columns[place],
                0,
            );
        },
        None => {},
    }
}

/// A table's changes identify no row exactly where its replica identity is nothing, where it is the
/// whole row and the table has no primary key, and where it is the primary key and there is none.
pub proof fn tables_without_identity_are_told(keys: TableMap<Vec<String>>, told: RelationView)
    ensures
        told.replica_identity == 0x6e ==> relation::identity_fault(keys, told) == Some(
            IdentityFault::Nothing,
        ),
        told.replica_identity == 0x66 ==> (relation::identity_fault(keys, told) == (
        if relation::key_of(keys, told) is None {
            Some(IdentityFault::FullWithoutKey)
        } else {
            None
        })),
        told.replica_identity == 0x64 ==> (relation::identity_fault(keys, told) == (
        if relation::key_of(keys, told) is None {
            Some(IdentityFault::DefaultWithoutKey)
        } else {
            None
        })),
        told.replica_identity != 0x6e && told.replica_identity != 0x66 && told.replica_identity
            != 0x64 ==> relation::identity_fault(keys, told) is None,
{
}

// Places and times

/// A place in the log is written as its two halves in hexadecimal, the higher one first and without
/// leading zeros, the lower one with eight digits.
pub proof fn place_is_written_in_two_halves(high: u32, low: u32)
    ensures
        lsn::lsn_text((high * 0x1_0000_0000 + low) as u64) == text::in_base(high as nat, 16)
            + "/"@ + text::padded(low as nat, 16, 8),
{
    let place = (high * 0x1_0000_0000 + low) as u64;
    assert(place == high * 0x1_0000_0000 + low);
    assert(place / 0x1_0000_0000 == high && place % 0x1_0000_0000 == low);
}

/// A text of two hexadecimal halves names the place that they make, in whatever case and with
/// whatever leading zeros its digits come; a half of more than 32 bits names none.
pub proof fn place_is_read_from_two_halves(high_text: Seq<char>, low_text: Seq<char>)
    requires
        !high_text.contains('/'),
        !low_text.contains('/'),
    ensures
        lsn::lsn_in(high_text + "/"@ + low_text) == (match (
            text::number_in(high_text, 16),
            text::number_in(low_text, 16),
        ) {
            (Some(high), Some(low)) => if high <= 0xffff_ffff && low <= 0xffff_ffff {
                Some((high * 0x1_0000_0000 + low) as u64)
            } else {
                None
            },
            _ => None,
        }),
        lsn::lsn_in(high_text) is None,
{
    reveal_strlit("/");
    assert("/"@ =~= seq!['/']);
    text::split_after_separator(high_text, '/', low_text);
    text::split_without_separator(high_text, '/');
    let whole = high_text + "/"@ + low_text;
    assert(whole =~= high_text + seq!['/'] + low_text);
    let parts = text::split(whole, '/');
    assert(parts =~= seq![high_text, low_text]);
}

/// A time of the log, in microseconds since the start of 2000, is told in whole milliseconds since
/// the start of 1970, rounded towards the start of 2000; one before the start of 1970 is told as
/// that start.
pub proof fn log_time_is_told_in_unix_milliseconds(log_us: i64)
    ensures
        log_us >= 0 ==> 1000 * lsn::unix_millis(log_us) <= log_us + 946_684_800_000_000 < 1000
            * lsn::unix_millis(log_us) + 1000,
        -946_684_800_000_000 <= log_us < 0 ==> 1000 * (lsn::unix_millis(log_us) - 1) < log_us
            + 946_684_800_000_000 <= 1000 * lsn::unix_millis(log_us),
        log_us < -946_684_800_000_000 ==> lsn::unix_millis(log_us) == 0,
{
}

} // verus!
