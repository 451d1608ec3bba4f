//! What the connector knows of a published table: its key, its shape, and its rows.
use vstd::prelude::*;
use crate::error::Error;
use crate::json;
use crate::json::Json;
use crate::postgres::decoder;
use crate::postgres::decoder::{
    PgColumn, PgColumnView, PgRelation, PgValue, PgValueView, RelationView,
};
use crate::schema;
use crate::schema::{CatalogColumn, CatalogColumnView, ShapeView, TableMap, TableSchema};
use crate::text;

verus! {

// Types

/// The name of a built-in type by its number, as far as the wire alone tells it. The type of
/// another number is not known.
pub open spec fn wire_type(oid: u32) -> Seq<char> {
    match oid {
        16 => "bool"@,
        17 => "bytea"@,
        18 => "char"@,
        19 => "name"@,
        20 => "int8"@,
        21 => "int2"@,
        23 => "int4"@,
        25 => "text"@,
        26 => "oid"@,
        700 => "float4"@,
        701 => "float8"@,
        790 => "money"@,
        869 => "inet"@,
        650 => "cidr"@,
        829 => "macaddr"@,
        774 => "macaddr8"@,
        1000 => "_bool"@,
        1001 => "_bytea"@,
        1002 => "_char"@,
        1005 => "_int2"@,
        1007 => "_int4"@,
        1009 => "_text"@,
        1014 => "_bpchar"@,
        1015 => "_varchar"@,
        1016 => "_int8"@,
        1017 => "_point"@,
        1021 => "_float4"@,
        1022 => "_float8"@,
        1042 => "bpchar"@,
        1043 => "varchar"@,
        1082 => "date"@,
        1083 => "time"@,
        1114 => "timestamp"@,
        1115 => "_timestamp"@,
        1184 => "timestamptz"@,
        1185 => "_timestamptz"@,
        1186 => "interval"@,
        1187 => "_interval"@,
        1231 => "_numeric"@,
        1266 => "timetz"@,
        1560 => "bit"@,
        1562 => "varbit"@,
        1700 => "numeric"@,
        2278 => "void"@,
        2950 => "uuid"@,
        2951 => "_uuid"@,
        3802 => "jsonb"@,
        3807 => "_jsonb"@,
        114 => "json"@,
        199 => "_json"@,
        142 => "xml"@,
        143 => "_xml"@,
        3614 => "tsvector"@,
        3615 => "tsquery"@,
        600 => "point"@,
        601 => "lseg"@,
        602 => "path"@,
        603 => "box"@,
        604 => "polygon"@,
        718 => "circle"@,
        _ => schema::UNKNOWN_TYPE@,
    }
}

/// The name of a built-in type by its number; see [`wire_type`].
pub fn wire_type_name(oid: u32) -> (name: &'static str)
    ensures
        name@ == wire_type(oid),
{
    match oid {
        16 => "bool",
        17 => "bytea",
        18 => "char",
        19 => "name",
        20 => "int8",
        21 => "int2",
        23 => "int4",
        25 => "text",
        26 => "oid",
        700 => "float4",
        701 => "float8",
        790 => "money",
        869 => "inet",
        650 => "cidr",
        829 => "macaddr",
        774 => "macaddr8",
        1000 => "_bool",
        1001 => "_bytea",
        1002 => "_char",
        1005 => "_int2",
        1007 => "_int4",
        1009 => "_text",
        1014 => "_bpchar",
        1015 => "_varchar",
        1016 => "_int8",
        1017 => "_point",
        1021 => "_float4",
        1022 => "_float8",
        1042 => "bpchar",
        1043 => "varchar",
        1082 => "date",
        1083 => "time",
        1114 => "timestamp",
        1115 => "_timestamp",
        1184 => "timestamptz",
        1185 => "_timestamptz",
        1186 => "interval",
        1187 => "_interval",
        1231 => "_numeric",
        1266 => "timetz",
        1560 => "bit",
        1562 => "varbit",
        1700 => "numeric",
        2278 => "void",
        2950 => "uuid",
        2951 => "_uuid",
        3802 => "jsonb",
        3807 => "_jsonb",
        114 => "json",
        199 => "_json",
        142 => "xml",
        143 => "_xml",
        3614 => "tsvector",
        3615 => "tsquery",
        600 => "point",
        601 => "lseg",
        602 => "path",
        603 => "box",
        604 => "polygon",
        718 => "circle",
        _ => schema::UNKNOWN_TYPE,
    }
}

// Keys

/// The names of the columns that belong to the replica identity, in order.
pub open spec fn flagged(columns: Seq<PgColumnView>) -> Seq<Seq<char>>
    decreases columns.len(),
{
    if columns.len() == 0 {
        Seq::empty()
    } else if columns.last().is_key() {
        flagged(columns.drop_last()).push(columns.last().name)
    } else {
        flagged(columns.drop_last())
    }
}

/// The replica identity that is the whole row.
pub const IDENTITY_FULL: u8 = 0x66;

/// The replica identity that is nothing.
pub const IDENTITY_NOTHING: u8 = 0x6e;

/// The replica identity that is the primary key.
pub const IDENTITY_DEFAULT: u8 = 0x64;

/// A table's primary key, never merely its replica identity. Where that is the whole row every
/// column is flagged, and the key is the catalog's; elsewhere the flagged columns are a key.
pub open spec fn key_of(keys: TableMap<Vec<String>>, relation: RelationView) -> Option<
    Seq<Seq<char>>,
> {
    if relation.replica_identity == IDENTITY_FULL {
        match keys.found(relation.namespace, relation.name) {
            Some(key) => if key@.len() == 0 {
                None
            } else {
                Some(text::texts(key@))
            },
            None => None,
        }
    } else if flagged(relation.columns).len() == 0 {
        None
    } else {
        Some(flagged(relation.columns))
    }
}

fn flagged_columns(columns: &Vec<PgColumn>) -> (names: Vec<String>)
    ensures
        text::texts(names@) == flagged(decoder::column_views(columns@)),
{
    let ghost views = decoder::column_views(columns@);
    let mut names: Vec<String> = Vec::new();
    let mut i: usize = 0;
    proof {
        assert(views.take(0) =~= Seq::empty());
        assert(text::texts(names@) =~= Seq::empty());
    }
    while i < columns.len()
        invariant
            i <= columns@.len(),
            views == decoder::column_views(columns@),
            text::texts(names@) == flagged(views.take(i as int)),
        decreases columns.len() - i,
    {
        let ghost before = text::texts(names@);
        proof {
            assert(views.take(i + 1).drop_last() =~= views.take(i as int));
            assert(views.take(i + 1).last() == columns@[i as int]@);
        }
        if columns[i].is_key() {
            let name = columns[i].name.clone();
            let ghost seen = name@;
            names.push(name);
            proof {
                assert(text::texts(names@) =~= before.push(seen));
            }
        }
        i = i + 1;
    }
    proof {
        assert(views.take(i as int) =~= views);
    }
    names
}

/// A table's primary key; see [`key_of`].
pub fn resolve_primary_key(keys: &TableMap<Vec<String>>, relation: &PgRelation) -> (key: Option<
    Vec<String>,
>)
    ensures
        crate::event::key_names(key) == key_of(*keys, relation@),
{
    if relation.replica_identity == IDENTITY_FULL {
        match keys.get(relation.namespace.as_str(), relation.name.as_str()) {
            Some(key) => if key.len() == 0 {
                None
            } else {
                Some(text::clone_texts(key))
            },
            None => None,
        }
    } else {
        let names = flagged_columns(&relation.columns);
        proof {
            assert(text::texts(names@).len() == names@.len());
        }
        if names.len() == 0 {
            None
        } else {
            Some(names)
        }
    }
}

/// Why a table's changes identify no row.
#[derive(Debug, Clone, Copy, PartialEq, Eq, Structural)]
pub enum IdentityFault {
    /// The replica identity is nothing.
    Nothing,
    /// The replica identity is the whole row, and there is no primary key.
    FullWithoutKey,
    /// The replica identity is the primary key, and there is none.
    DefaultWithoutKey,
}

/// Why a table's changes identify no row, if they do not.
pub open spec fn identity_fault(keys: TableMap<Vec<String>>, relation: RelationView) -> Option<
    IdentityFault,
> {
    if relation.replica_identity == IDENTITY_NOTHING {
        Some(IdentityFault::Nothing)
    } else if relation.replica_identity == IDENTITY_FULL && key_of(keys, relation) is None {
        Some(IdentityFault::FullWithoutKey)
    } else if relation.replica_identity == IDENTITY_DEFAULT && flagged(relation.columns).len()
        == 0 {
        Some(IdentityFault::DefaultWithoutKey)
    } else {
        None
    }
}

/// Why a table's changes identify no row; see [`identity_fault`].
pub fn find_identity_fault(keys: &TableMap<Vec<String>>, relation: &PgRelation) -> (fault: Option<
    IdentityFault,
>)
    ensures
        fault == identity_fault(*keys, relation@),
{
    let key = resolve_primary_key(keys, relation);
    if relation.replica_identity == IDENTITY_NOTHING {
        Some(IdentityFault::Nothing)
    } else if relation.replica_identity == IDENTITY_FULL && key.is_none() {
        Some(IdentityFault::FullWithoutKey)
    } else if relation.replica_identity == IDENTITY_DEFAULT && key.is_none() {
        Some(IdentityFault::DefaultWithoutKey)
    } else {
        None
    }
}

// Shapes

/// The first catalog column of a name.
pub open spec fn catalog_column(catalog: Seq<CatalogColumnView>, name: Seq<char>) -> Option<
    CatalogColumnView,
>
    decreases catalog.len(),
{
    if catalog.len() == 0 {
        None
    } else if catalog[0].name == name {
        Some(catalog[0])
    } else {
        catalog_column(catalog.drop_first(), name)
    }
}

/// A column as the catalog declares it, or else as the wire tells it. Nothing says then that a
/// column is not nullable.
pub open spec fn described(
    catalog: Option<Seq<CatalogColumnView>>,
    column: PgColumnView,
) -> CatalogColumnView {
    let fallback = CatalogColumnView {
        name: column.name,
        data_type: wire_type(column.type_oid),
        nullable: true,
    };
    match catalog {
        Some(catalog) => match catalog_column(catalog, column.name) {
            Some(found) => found,
            None => fallback,
        },
        None => fallback,
    }
}

/// The catalog's columns of a table, where it has the table.
pub open spec fn catalog_of(
    columns: TableMap<Vec<CatalogColumn>>,
    relation: RelationView,
) -> Option<Seq<CatalogColumnView>> {
    match columns.found(relation.namespace, relation.name) {
        Some(found) => Some(schema::catalog_views(found@)),
        None => None,
    }
}

/// The columns that the stream sends of a table, in its order, as the catalog declares them.
pub open spec fn described_columns(
    columns: TableMap<Vec<CatalogColumn>>,
    relation: RelationView,
) -> Seq<CatalogColumnView> {
    relation.columns.map_values(
        |column: PgColumnView| described(catalog_of(columns, relation), column),
    )
}

/// The shape of a published table: exactly the columns that the stream sends, and its primary key.
pub open spec fn shape_of(
    keys: TableMap<Vec<String>>,
    columns: TableMap<Vec<CatalogColumn>>,
    relation: RelationView,
) -> ShapeView {
    schema::catalog_shape(
        relation.namespace,
        relation.name,
        described_columns(columns, relation),
        match key_of(keys, relation) {
            Some(key) => key,
            None => Seq::empty(),
        },
    )
}

fn find_column(catalog: &Vec<CatalogColumn>, name: &str) -> (found: Option<CatalogColumn>)
    ensures
        match found {
            Some(column) => catalog_column(schema::catalog_views(catalog@), name@) == Some(
                column@,
            ),
            None => catalog_column(schema::catalog_views(catalog@), name@) is None,
        },
{
    let ghost views = schema::catalog_views(catalog@);
    let mut i: usize = 0;
    proof {
        assert(views.skip(0) =~= views);
    }
    while i < catalog.len()
        invariant
            i <= catalog@.len(),
            views == schema::catalog_views(catalog@),
            catalog_column(views, name@) == catalog_column(views.skip(i as int), name@),
        decreases catalog.len() - i,
    {
        proof {
            assert(views.skip(i as int)[0] == catalog@[i as int]@);
            assert(views.skip(i as int).drop_first() =~= views.skip(i + 1));
        }
        if text::same_text(catalog[i].name.as_str(), name) {
            return Some(catalog[i].clone());
        }
        i = i + 1;
    }
    None
}

fn describe_columns(columns: &TableMap<Vec<CatalogColumn>>, relation: &PgRelation) -> (list: Vec<
    CatalogColumn,
>)
    ensures
        schema::catalog_views(list@) == described_columns(*columns, relation@),
{
    let ghost whole = described_columns(*columns, relation@);
    let ghost catalog_view = catalog_of(*columns, relation@);
    let catalog = columns.get(relation.namespace.as_str(), relation.name.as_str());
    let mut list: Vec<CatalogColumn> = Vec::new();
    let mut i: usize = 0;
    while i < relation.columns.len()
        invariant
            i <= relation.columns@.len(),
            whole == described_columns(*columns, relation@),
            catalog_view == catalog_of(*columns, relation@),
            match catalog {
                Some(found) => catalog_view == Some(schema::catalog_views(found@)),
                None => catalog_view is None,
            },
            schema::catalog_views(list@) == whole.take(i as int),
        decreases relation.columns.len() - i,
    {
        let column = &relation.columns[i];
        let known = match catalog {
            Some(found) => find_column(found, column.name.as_str()),
            None => None,
        };
        let one = match known {
            Some(found) => found,
            None => CatalogColumn {
                name: column.name.clone(),
                data_type: wire_type_name(column.type_oid).to_owned(),
                nullable: true,
            },
        };
        let ghost before = schema::catalog_views(list@);
        let ghost seen = one@;
        list.push(one);
        proof {
            assert(relation@.columns[i as int] == relation.columns@[i as int]@);
            assert(seen == whole[i as int]);
            assert(schema::catalog_views(list@) =~= before.push(seen));
            assert(whole.take(i + 1) =~= whole.take(i as int).push(seen));
        }
        i = i + 1;
    }
    proof {
        assert(whole.take(i as int) =~= whole);
    }
    list
}

/// The shape of a published table; see [`shape_of`].
pub fn relation_to_table_schema(
    keys: &TableMap<Vec<String>>,
    columns: &TableMap<Vec<CatalogColumn>>,
    relation: &PgRelation,
) -> (shape: TableSchema)
    ensures
        shape@ == shape_of(*keys, *columns, relation@),
{
    let described = describe_columns(columns, relation);
    let key = match resolve_primary_key(keys, relation) {
        Some(key) => key,
        None => {
            let none: Vec<String> = Vec::new();
            proof {
                assert(text::texts(none@) =~= Seq::empty());
            }
            none
        },
    };
    schema::table_schema_from_catalog(
        relation.namespace.as_str(),
        relation.name.as_str(),
        &described,
        &key,
    )
}

fn same_column(a: &PgColumn, b: &PgColumn) -> (same: bool)
    ensures
        same == (a@ == b@),
{
    a.flags == b.flags && a.type_oid == b.type_oid && a.type_modifier == b.type_modifier
        && text::same_text(a.name.as_str(), b.name.as_str())
}

/// Whether two relations are the same in every respect.
pub fn same_relation(a: &PgRelation, b: &PgRelation) -> (same: bool)
    ensures
        same == (a@ == b@),
{
    if a.oid != b.oid || a.replica_identity != b.replica_identity || a.columns.len()
        != b.columns.len() || !text::same_text(a.namespace.as_str(), b.namespace.as_str())
        || !text::same_text(a.name.as_str(), b.name.as_str()) {
        proof {
            assert(a@.columns.len() == a.columns@.len());
            assert(b@.columns.len() == b.columns@.len());
        }
        return false;
    }
    let mut i: usize = 0;
    while i < a.columns.len()
        invariant
            i <= a.columns@.len(),
            a.columns@.len() == b.columns@.len(),
            forall|k: int| 0 <= k < i ==> (#[trigger] a.columns@[k])@ == b.columns@[k]@,
        decreases a.columns.len() - i,
    {
        if !same_column(&a.columns[i], &b.columns[i]) {
            proof {
                assert(a@.columns[i as int] != b@.columns[i as int]);
            }
            return false;
        }
        i = i + 1;
    }
    proof {
        assert(a@.columns =~= b@.columns);
    }
    true
}

// Rows

/// The members of a row: the first `count` values under their columns' names. What the log does
/// not carry is no member.
pub open spec fn row_members(
    columns: Seq<PgColumnView>,
    values: Seq<PgValueView>,
    count: int,
) -> Map<Seq<char>, Json>
    decreases count,
{
    if count <= 0 {
        Map::empty()
    } else {
        let before = row_members(columns, values, count - 1);
        match values[count - 1] {
            PgValueView::Null => before.insert(columns[count - 1].name, Json::Null),
            PgValueView::Text(value) => before.insert(
                columns[count - 1].name,
                Json::Text(value),
            ),
            PgValueView::Unchanged => before,
        }
    }
}

/// The columns among the first `count` whose values the log does not carry.
pub open spec fn row_holes(
    columns: Seq<PgColumnView>,
    values: Seq<PgValueView>,
    count: int,
) -> Seq<Seq<char>>
    decreases count,
{
    if count <= 0 {
        Seq::empty()
    } else {
        let before = row_holes(columns, values, count - 1);
        match values[count - 1] {
            PgValueView::Unchanged => before.push(columns[count - 1].name),
            _ => before,
        }
    }
}

/// A row and its holes. A tuple with more values than the relation has columns speaks of another
/// shape, and is none.
pub open spec fn row_of(relation: RelationView, values: Seq<PgValueView>) -> Option<
    (Json, Seq<Seq<char>>),
> {
    if values.len() > relation.columns.len() {
        None
    } else {
        Some(
            (
                Json::Object(row_members(relation.columns, values, values.len() as int)),
                row_holes(relation.columns, values, values.len() as int),
            ),
        )
    }
}

/// What is told of a tuple with more values than the relation has columns.
pub open spec fn overlong_text(relation: RelationView, size: nat) -> Seq<char> {
    ("postgres tuple for relation '"@ + relation.namespace + "."@ + relation.name + "' (oid "@) + (
    text::decimal_text(relation.oid as nat) + ") has "@ + text::decimal_text(size))
        + " values but the cached schema has only "@ + text::decimal_text(relation.columns.len())
        + STALE_RELATION_REMEDY@
}

/// How what is told of an overlong tuple ends.
pub const STALE_RELATION_REMEDY: &'static str = " columns. The table's schema changed and this connector's RELATION cache is stale. Emitting the row would silently drop the extra columns. Restart the connector to re-read the relation metadata.";

/// A row and its holes; see [`row_of`].
pub fn tuple_to_json(relation: &PgRelation, values: &Vec<PgValue>) -> (row: Result<
    (serde_json::Value, Vec<String>),
    Error,
>)
    ensures
        match row {
            Ok((row, holes)) => row_of(relation@, decoder::value_views(values@)) == Some(
                (json::json(row), text::texts(holes@)),
            ),
            Err(error) => row_of(relation@, decoder::value_views(values@)) is None
                && error is SourceError && error.text() == overlong_text(
                relation@,
                values@.len(),
            ),
        },
{
    let ghost columns = relation@.columns;
    let ghost list = decoder::value_views(values@);
    let size = values.len();
    proof {
        assert(list.len() == size);
        assert(columns.len() == relation.columns@.len());
    }
    if size > relation.columns.len() {
        return Err(
            Error::SourceError(
                text::join5(
                    text::join5(
                        "postgres tuple for relation '",
                        relation.namespace.as_str(),
                        ".",
                        relation.name.as_str(),
                        "' (oid ",
                    ).as_str(),
                    text::join3(
                        text::decimal(relation.oid as u64).as_str(),
                        ") has ",
                        text::decimal(size as u64).as_str(),
                    ).as_str(),
                    " values but the cached schema has only ",
                    text::decimal(relation.columns.len() as u64).as_str(),
                    STALE_RELATION_REMEDY,
                ),
            ),
        );
    }
    let mut row = json::object();
    let mut holes: Vec<String> = Vec::new();
    let mut i: usize = 0;
    proof {
        assert(text::texts(holes@) =~= Seq::empty());
    }
    while i < size
        invariant
            i <= size,
            size == values@.len(),
            size <= relation.columns@.len(),
            columns == relation@.columns,
            list == decoder::value_views(values@),
            json::json(row) == Json::Object(row_members(columns, list, i as int)),
            text::texts(holes@) == row_holes(columns, list, i as int),
        decreases size - i,
    {
        proof {
            assert(columns[i as int] == relation.columns@[i as int]@);
            assert(list[i as int] == values@[i as int]@);
        }
        let name = relation.columns[i].name.clone();
        match &values[i] {
            PgValue::Null => {
                json::set_member(&mut row, name, json::null());
            },
            PgValue::Text(value) => {
                json::set_member(&mut row, name, json::string(value.clone()));
            },
            PgValue::Unchanged => {
                let ghost before = text::texts(holes@);
                let ghost seen = name@;
                holes.push(name);
                proof {
                    assert(text::texts(holes@) =~= before.push(seen));
                }
            },
        }
        i = i + 1;
    }
    Ok((row, holes))
}

/// A column is a member of a row or a hole of it, and never both, where the relation's column
/// names differ.
pub proof fn no_column_is_lost(relation: RelationView, values: Seq<PgValueView>, place: int)
    requires
        values.len() <= relation.columns.len(),
        0 <= place < values.len(),
        forall|i: int, j: int|
            0 <= i < j < relation.columns.len() ==> (#[trigger] relation.columns[i]).name != (
            #[trigger] relation.columns[j]).name,
    ensures
        ({
            let name = relation.columns[place].name;
            let members = row_members(relation.columns, values, values.len() as int);
            let holes = row_holes(relation.columns, values, values.len() as int);
            match values[place] {
                PgValueView::Null => members.contains_key(name) && members[name] == Json::Null
                    && !holes.contains(name),
                PgValueView::Text(value) => members.contains_key(name) && members[name]
                    == Json::Text(value) && !holes.contains(name),
                PgValueView::Unchanged => !members.contains_key(name) && holes.contains(name),
            }
        }),
{
    lemma_column(relation.columns, values, place, values.len() as int);
}

proof fn lemma_column(
    columns: Seq<PgColumnView>,
    values: Seq<PgValueView>,
    place: int,
    count: int,
)
    requires
        0 <= count <= values.len() <= columns.len(),
        0 <= place < values.len(),
        forall|i: int, j: int|
            0 <= i < j < columns.len() ==> (#[trigger] columns[i]).name != (
            #[trigger] columns[j]).name,
    ensures
        ({
            let name = columns[place].name;
            let members = row_members(columns, values, count);
            let holes = row_holes(columns, values, count);
            if place < count {
                match values[place] {
                    PgValueView::Null => members.contains_key(name) && members[name] == Json::Null
                        && !holes.contains(name),
                    PgValueView::Text(value) => members.contains_key(name) && members[name]
                        == Json::Text(value) && !holes.contains(name),
                    PgValueView::Unchanged => !members.contains_key(name) && holes.contains(name),
                }
            } else {
                !members.contains_key(name) && !holes.contains(name)
            }
        }),
    decreases count,
{
    if count > 0 {
        lemma_column(columns, values, place, count - 1);
        let name = columns[place].name;
        let before = row_holes(columns, values, count - 1);
        let holes = row_holes(columns, values, count);
        if place < count - 1 {
            assert(columns[place].name != columns[count - 1].name);
        } else if place > count - 1 {
            assert(columns[count - 1].name != columns[place].name);
        }
        if values[count - 1] is Unchanged {
            assert(holes == before.push(columns[count - 1].name));
            if before.contains(name) {
                let k = choose|k: int| 0 <= k < before.len() && before[k] == name;
                assert(holes[k] == name);
            }
            if place == count - 1 {
                assert(holes[holes.len() - 1] == name);
            } else {
                assert forall|k: int| 0 <= k < holes.len() && holes[k] == name implies before.contains(
                    name,
                ) by {
                    assert(k < before.len());
                    assert(before[k] == name);
                }
            }
        }
    }
}

} // verus!
