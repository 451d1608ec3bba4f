//! Table shapes: what the catalog says of a table, and the events that announce it.
use vstd::prelude::*;
use crate::event::{
    BeforeImage, BeforeView, Event, EventView, Operation, SourceMetadata, SourceView,
    EVENT_ENVELOPE_VERSION,
};
use crate::json;
use crate::json::Json;
use crate::text;

verus! {

/// The `ddl_type` of an event that announces a table's shape before its first row.
pub const DDL_TYPE_READ_SCHEMA: &'static str = "READ_SCHEMA";

/// The type name of a column whose type could not be read.
pub const UNKNOWN_TYPE: &'static str = "unknown";

// Maps by table

/// A value for each of some tables, by schema and name.
pub struct TableMap<V> {
    pub entries: Vec<((String, String), V)>,
}

/// The place of a table's entry, or the number of entries.
pub open spec fn entry_place<V>(
    entries: Seq<((String, String), V)>,
    schema: Seq<char>,
    table: Seq<char>,
) -> int
    decreases entries.len(),
{
    if entries.len() == 0 || (entries[0].0.0@ == schema && entries[0].0.1@ == table) {
        0
    } else {
        1 + entry_place(entries.drop_first(), schema, table)
    }
}

impl<V> TableMap<V> {
    /// The value for a table.
    pub open spec fn found(self, schema: Seq<char>, table: Seq<char>) -> Option<V> {
        let place = entry_place(self.entries@, schema, table);
        if place < self.entries@.len() {
            Some(self.entries@[place].1)
        } else {
            None
        }
    }

    /// No tables.
    pub fn new() -> (map: Self)
        ensures
            forall|schema: Seq<char>, table: Seq<char>|
                (#[trigger] map.found(schema, table)) is None,
    {
        TableMap { entries: Vec::new() }
    }

    fn place(&self, schema: &str, table: &str) -> (place: usize)
        ensures
            place as int == entry_place(self.entries@, schema@, table@),
            place <= self.entries@.len(),
            place < self.entries@.len() ==> self.entries@[place as int].0.0@ == schema@
                && self.entries@[place as int].0.1@ == table@,
    {
        let ghost all = self.entries@;
        let mut i: usize = 0;
        proof {
            assert(all.skip(0) =~= all);
        }
        while i < self.entries.len()
            invariant
                i <= self.entries@.len(),
                all == self.entries@,
                entry_place(all, schema@, table@) == i + entry_place(
                    all.skip(i as int),
                    schema@,
                    table@,
                ),
            decreases self.entries.len() - i,
        {
            let key = &self.entries[i].0;
            if text::same_text(key.0.as_str(), schema) && text::same_text(key.1.as_str(), table) {
                return i;
            }
            proof {
                assert(all.skip(i as int).drop_first() =~= all.skip(i + 1));
            }
            i = i + 1;
        }
        i
    }

    /// The value for a table.
    pub fn get(&self, schema: &str, table: &str) -> (value: Option<&V>)
        ensures
            match value {
                Some(value) => self.found(schema@, table@) == Some(*value),
                None => self.found(schema@, table@) is None,
            },
    {
        let place = self.place(schema, table);
        if place < self.entries.len() {
            Some(&self.entries[place].1)
        } else {
            None
        }
    }

    /// Sets the value for a table.
    pub fn insert(&mut self, schema: String, table: String, value: V)
        ensures
            final(self).found(schema@, table@) == Some(value),
            forall|s: Seq<char>, t: Seq<char>|
                s != schema@ || t != table@ ==> #[trigger] final(self).found(s, t) == old(self).found(s, t),
    {
        let place = self.place(schema.as_str(), table.as_str());
        let ghost before = self.entries@;
        let ghost key = (schema, table);
        if place < self.entries.len() {
            self.entries.set(place, ((schema, table), value));
            proof {
                assert forall|s: Seq<char>, t: Seq<char>| #[trigger]
                    entry_place(self.entries@, s, t) == entry_place(before, s, t) by {
                    lemma_same_keys(before, self.entries@, s, t);
                }
                lemma_place_holds(before, key.0@, key.1@);
                assert forall|s: Seq<char>, t: Seq<char>|
                    s != key.0@ || t != key.1@ implies #[trigger] self.found(s, t) == (TableMap {
                    entries: old(self).entries,
                }).found(s, t) by {
                    lemma_place_holds(before, s, t);
                    assert(entry_place(self.entries@, s, t) == entry_place(before, s, t));
                }
            }
        } else {
            self.entries.push(((schema, table), value));
            proof {
                assert forall|s: Seq<char>, t: Seq<char>|
                    #![trigger entry_place(self.entries@, s, t)]
                    true implies (entry_place(before, s, t) < before.len() ==> entry_place(
                    self.entries@,
                    s,
                    t,
                ) == entry_place(before, s, t)) && (entry_place(before, s, t) == before.len() ==> (
                if s == key.0@ && t == key.1@ {
                    entry_place(self.entries@, s, t) == before.len()
                } else {
                    entry_place(self.entries@, s, t) == before.len() + 1
                })) by {
                    lemma_pushed(before, self.entries@.last(), s, t);
                    assert(self.entries@ =~= before.push(self.entries@.last()));
                }
                assert forall|s: Seq<char>, t: Seq<char>|
                    s != key.0@ || t != key.1@ implies #[trigger] self.found(s, t) == (TableMap {
                    entries: old(self).entries,
                }).found(s, t) by {
                    lemma_place_holds(before, s, t);
                }
                let own = entry_place(self.entries@, key.0@, key.1@);
                assert(self.entries@[own].1 == value);
            }
        }
    }
}

proof fn lemma_place_holds<V>(
    entries: Seq<((String, String), V)>,
    schema: Seq<char>,
    table: Seq<char>,
)
    ensures
        0 <= entry_place(entries, schema, table) <= entries.len(),
        entry_place(entries, schema, table) < entries.len() ==> entries[entry_place(
            entries,
            schema,
            table,
        )].0.0@ == schema && entries[entry_place(entries, schema, table)].0.1@ == table,
    decreases entries.len(),
{
    if entries.len() > 0 && !(entries[0].0.0@ == schema && entries[0].0.1@ == table) {
        lemma_place_holds(entries.drop_first(), schema, table);
    }
}

proof fn lemma_same_keys<V>(
    a: Seq<((String, String), V)>,
    b: Seq<((String, String), V)>,
    schema: Seq<char>,
    table: Seq<char>,
)
    requires
        a.len() == b.len(),
        forall|i: int|
            0 <= i < a.len() ==> (#[trigger] a[i]).0.0@ == b[i].0.0@ && a[i].0.1@ == b[i].0.1@,
    ensures
        entry_place(a, schema, table) == entry_place(b, schema, table),
    decreases a.len(),
{
    if a.len() > 0 {
        assert(a[0].0.0@ == b[0].0.0@);
        assert forall|i: int| 0 <= i < a.drop_first().len() implies (
        #[trigger] a.drop_first()[i]).0.0@ == b.drop_first()[i].0.0@ && a.drop_first()[i].0.1@
            == b.drop_first()[i].0.1@ by {
            assert(a[i + 1].0.0@ == b[i + 1].0.0@);
        }
        lemma_same_keys(a.drop_first(), b.drop_first(), schema, table);
    }
}

proof fn lemma_pushed<V>(
    entries: Seq<((String, String), V)>,
    added: ((String, String), V),
    schema: Seq<char>,
    table: Seq<char>,
)
    ensures
        entry_place(entries, schema, table) < entries.len() ==> entry_place(
            entries.push(added),
            schema,
            table,
        ) == entry_place(entries, schema, table),
        entry_place(entries, schema, table) == entries.len() ==> entry_place(
            entries.push(added),
            schema,
            table,
        ) == (if added.0.0@ == schema && added.0.1@ == table {
            entries.len() as int
        } else {
            entries.len() as int + 1
        }),
    decreases entries.len(),
{
    let all = entries.push(added);
    if entries.len() == 0 {
        assert(all.drop_first() =~= Seq::<((String, String), V)>::empty());
        reveal_with_fuel(entry_place, 2);
    } else {
        assert(all[0] == entries[0]);
        assert(all.drop_first() =~= entries.drop_first().push(added));
        lemma_pushed(entries.drop_first(), added, schema, table);
    }
}

// Columns and shapes

/// A column as the catalog declares it.
#[derive(Debug, PartialEq, Eq)]
pub struct CatalogColumn {
    pub name: String,
    /// The declared type, with its modifiers.
    pub data_type: String,
    pub nullable: bool,
}

impl Clone for CatalogColumn {
    fn clone(&self) -> (copy: Self)
        ensures
            copy@ == self@,
    {
        CatalogColumn {
            name: self.name.clone(),
            data_type: self.data_type.clone(),
            nullable: self.nullable,
        }
    }
}

/// What a [`CatalogColumn`] holds.
pub struct CatalogColumnView {
    pub name: Seq<char>,
    pub data_type: Seq<char>,
    pub nullable: bool,
}

impl View for CatalogColumn {
    type V = CatalogColumnView;

    open spec fn view(&self) -> CatalogColumnView {
        CatalogColumnView {
            name: self.name@,
            data_type: self.data_type@,
            nullable: self.nullable,
        }
    }
}

/// What each of some catalog columns holds.
pub open spec fn catalog_views(columns: Seq<CatalogColumn>) -> Seq<CatalogColumnView> {
    columns.map_values(|column: CatalogColumn| column@)
}

/// A column of an announced shape.
#[derive(Debug, PartialEq, Eq)]
pub struct ColumnDef {
    pub name: String,
    pub data_type: String,
    pub nullable: bool,
    /// Whether the column is part of the primary key.
    pub is_primary_key: bool,
}

/// What a [`ColumnDef`] holds.
pub struct ColumnView {
    pub name: Seq<char>,
    pub data_type: Seq<char>,
    pub nullable: bool,
    pub is_primary_key: bool,
}

impl View for ColumnDef {
    type V = ColumnView;

    open spec fn view(&self) -> ColumnView {
        ColumnView {
            name: self.name@,
            data_type: self.data_type@,
            nullable: self.nullable,
            is_primary_key: self.is_primary_key,
        }
    }
}

/// What each of some columns holds.
pub open spec fn column_views(columns: Seq<ColumnDef>) -> Seq<ColumnView> {
    columns.map_values(|column: ColumnDef| column@)
}

/// The shape of a table.
#[derive(Debug, PartialEq, Eq)]
pub struct TableSchema {
    pub schema: String,
    pub table: String,
    pub columns: Vec<ColumnDef>,
    pub primary_keys: Vec<String>,
    pub version: u64,
}

/// What a [`TableSchema`] holds.
pub struct ShapeView {
    pub schema: Seq<char>,
    pub table: Seq<char>,
    pub columns: Seq<ColumnView>,
    pub primary_keys: Seq<Seq<char>>,
    pub version: u64,
}

impl View for TableSchema {
    type V = ShapeView;

    open spec fn view(&self) -> ShapeView {
        ShapeView {
            schema: self.schema@,
            table: self.table@,
            columns: column_views(self.columns@),
            primary_keys: text::texts(self.primary_keys@),
            version: self.version,
        }
    }
}

/// The shape that catalog columns and a primary key make. Nullability is the catalog's; it is
/// never derived from the key.
pub open spec fn catalog_shape(
    schema: Seq<char>,
    table: Seq<char>,
    columns: Seq<CatalogColumnView>,
    primary_keys: Seq<Seq<char>>,
) -> ShapeView {
    ShapeView {
        schema,
        table,
        columns: columns.map_values(
            |column: CatalogColumnView|
                ColumnView {
                    name: column.name,
                    data_type: column.data_type,
                    nullable: column.nullable,
                    is_primary_key: primary_keys.contains(column.name),
                },
        ),
        primary_keys,
        version: 0,
    }
}

/// The shape that catalog columns and a primary key make.
pub fn table_schema_from_catalog(
    schema: &str,
    table: &str,
    columns: &Vec<CatalogColumn>,
    primary_keys: &Vec<String>,
) -> (shape: TableSchema)
    ensures
        shape@ == catalog_shape(
            schema@,
            table@,
            catalog_views(columns@),
            text::texts(primary_keys@),
        ),
{
    let ghost whole = catalog_shape(
        schema@,
        table@,
        catalog_views(columns@),
        text::texts(primary_keys@),
    ).columns;
    let mut defs: Vec<ColumnDef> = Vec::new();
    let mut i: usize = 0;
    while i < columns.len()
        invariant
            i <= columns@.len(),
            whole == catalog_shape(
                schema@,
                table@,
                catalog_views(columns@),
                text::texts(primary_keys@),
            ).columns,
            column_views(defs@) == whole.take(i as int),
        decreases columns.len() - i,
    {
        let ghost before = column_views(defs@);
        let column = &columns[i];
        let def = ColumnDef {
            name: column.name.clone(),
            data_type: column.data_type.clone(),
            nullable: column.nullable,
            is_primary_key: text::contains_text(primary_keys, column.name.as_str()),
        };
        let ghost seen = def@;
        defs.push(def);
        proof {
            assert(column_views(defs@) =~= before.push(seen));
            assert(catalog_views(columns@)[i as int] == column@);
            assert(whole.take(i + 1) =~= whole.take(i as int).push(seen));
        }
        i = i + 1;
    }
    proof {
        assert(whole.take(i as int) =~= whole);
    }
    TableSchema {
        schema: schema.to_owned(),
        table: table.to_owned(),
        columns: defs,
        primary_keys: text::clone_texts(primary_keys),
        version: 0,
    }
}

// Shape identities

/// A text behind its length.
pub open spec fn framed(part: Seq<char>) -> Seq<char> {
    text::decimal_text(part.len()) + seq![':'] + part
}

/// A column in a shape's identity.
pub open spec fn column_text(column: ColumnView) -> Seq<char> {
    framed(column.name) + (framed(column.data_type) + seq![
        if column.nullable {
            '?'
        } else {
            '!'
        },
    ])
}

/// Columns in a shape's identity.
pub open spec fn columns_text(columns: Seq<ColumnView>) -> Seq<char>
    decreases columns.len(),
{
    if columns.len() == 0 {
        Seq::empty()
    } else {
        column_text(columns[0]) + columns_text(columns.drop_first())
    }
}

/// Key columns in a shape's identity.
pub open spec fn keys_text(keys: Seq<Seq<char>>) -> Seq<char>
    decreases keys.len(),
{
    if keys.len() == 0 {
        Seq::empty()
    } else {
        framed(keys[0]) + keys_text(keys.drop_first())
    }
}

/// The identity of a shape: its name, its columns and its key, each part behind its length.
pub open spec fn shape_text(shape: ShapeView) -> Seq<char> {
    framed(shape.schema) + (framed(shape.table) + (text::decimal_text(shape.columns.len()) + (seq![
        ':',
    ] + (columns_text(shape.columns) + keys_text(shape.primary_keys)))))
}

fn push_framed(out: &mut String, part: &str)
    ensures
        final(out)@ == old(out)@ + framed(part@),
{
    let ghost before = out@;
    let chars = text::to_chars(part);
    out.append(text::decimal(chars.len() as u64).as_str());
    out.push(':');
    out.append(part);
    proof {
        assert(out@ =~= before + framed(part@));
    }
}

/// The identity of a shape, which a row carries to name the announcement that describes it.
pub fn schema_id(shape: &TableSchema) -> (id: String)
    ensures
        id@ == shape_text(shape@),
{
    let mut out = String::new();
    push_framed(&mut out, shape.schema.as_str());
    push_framed(&mut out, shape.table.as_str());
    out.append(text::decimal(shape.columns.len() as u64).as_str());
    out.push(':');
    let ghost lead = out@;
    let ghost columns = shape@.columns;
    let mut i: usize = 0;
    proof {
        assert(columns.skip(0) =~= columns);
        assert(lead + columns_text(columns) =~= out@ + columns_text(columns.skip(0)));
    }
    while i < shape.columns.len()
        invariant
            i <= shape.columns@.len(),
            columns == column_views(shape.columns@),
            lead + columns_text(columns) == out@ + columns_text(columns.skip(i as int)),
        decreases shape.columns.len() - i,
    {
        let ghost before = out@;
        let column = &shape.columns[i];
        push_framed(&mut out, column.name.as_str());
        push_framed(&mut out, column.data_type.as_str());
        out.push(
            if column.nullable {
                '?'
            } else {
                '!'
            },
        );
        proof {
            assert(columns.skip(i as int)[0] == column@);
            assert(columns.skip(i as int).drop_first() =~= columns.skip(i + 1));
            assert(out@ =~= before + column_text(column@));
            assert(before + columns_text(columns.skip(i as int)) =~= out@ + columns_text(
                columns.skip(i + 1),
            ));
        }
        i = i + 1;
    }
    let ghost keys = shape@.primary_keys;
    let ghost middle = out@;
    proof {
        assert(columns.skip(i as int) =~= Seq::<ColumnView>::empty());
        assert(lead + columns_text(columns) =~= out@);
        assert(keys.skip(0) =~= keys);
    }
    let mut k: usize = 0;
    while k < shape.primary_keys.len()
        invariant
            k <= shape.primary_keys@.len(),
            keys == text::texts(shape.primary_keys@),
            middle + keys_text(keys) == out@ + keys_text(keys.skip(k as int)),
        decreases shape.primary_keys.len() - k,
    {
        let ghost before = out@;
        push_framed(&mut out, shape.primary_keys[k].as_str());
        proof {
            assert(keys.skip(k as int)[0] == shape.primary_keys@[k as int]@);
            assert(keys.skip(k as int).drop_first() =~= keys.skip(k + 1));
            assert(before + keys_text(keys.skip(k as int)) =~= out@ + keys_text(
                keys.skip(k + 1),
            ));
        }
        k = k + 1;
    }
    proof {
        assert(keys.skip(k as int) =~= Seq::<Seq<char>>::empty());
        assert(middle + keys_text(keys) =~= out@);
        assert(out@ =~= shape_text(shape@));
    }
    out
}

proof fn lemma_number_prefix(a: nat, b: nat, x: Seq<char>, y: Seq<char>)
    requires
        text::decimal_text(a) + (seq![':'] + x) == text::decimal_text(b) + (seq![':'] + y),
    ensures
        a == b,
        x == y,
{
    let m = text::decimal_text(a);
    let n = text::decimal_text(b);
    let p = m + (seq![':'] + x);
    let q = n + (seq![':'] + y);
    text::decimal_is_digits(a);
    text::decimal_is_digits(b);
    assert(p[m.len() as int] == ':');
    assert(q[n.len() as int] == ':');
    if m.len() < n.len() {
        assert(q[m.len() as int] == n[m.len() as int]);
    }
    if n.len() < m.len() {
        assert(p[n.len() as int] == m[n.len() as int]);
    }
    assert(p.take(m.len() as int) =~= m);
    assert(q.take(n.len() as int) =~= n);
    text::number_round_trip(a, 10);
    text::number_round_trip(b, 10);
    assert(p.skip(m.len() as int + 1) =~= x);
    assert(q.skip(n.len() as int + 1) =~= y);
}

proof fn lemma_framed_prefix(a: Seq<char>, b: Seq<char>, x: Seq<char>, y: Seq<char>)
    requires
        framed(a) + x == framed(b) + y,
    ensures
        a == b,
        x == y,
{
    assert(framed(a) + x =~= text::decimal_text(a.len()) + (seq![':'] + (a + x)));
    assert(framed(b) + y =~= text::decimal_text(b.len()) + (seq![':'] + (b + y)));
    lemma_number_prefix(a.len(), b.len(), a + x, b + y);
    assert((a + x).take(a.len() as int) =~= a);
    assert((b + y).take(b.len() as int) =~= b);
    assert((a + x).skip(a.len() as int) =~= x);
    assert((b + y).skip(b.len() as int) =~= y);
}

proof fn lemma_regroup(
    name: Seq<char>,
    data_type: Seq<char>,
    flag: Seq<char>,
    rest: Seq<char>,
    tail: Seq<char>,
)
    ensures
        (name + (data_type + flag)) + rest + tail == name + (data_type + (flag + (rest + tail))),
{
    assert((name + (data_type + flag)) + rest + tail =~= name + (data_type + (flag + (rest
        + tail))));
}

proof fn lemma_columns_prefix(
    a: Seq<ColumnView>,
    b: Seq<ColumnView>,
    x: Seq<char>,
    y: Seq<char>,
)
    requires
        a.len() == b.len(),
        columns_text(a) + x == columns_text(b) + y,
    ensures
        forall|i: int|
            0 <= i < a.len() ==> (#[trigger] a[i]).name == b[i].name && a[i].data_type
                == b[i].data_type && a[i].nullable == b[i].nullable,
        x == y,
    decreases a.len(),
{
    if a.len() == 0 {
        assert(columns_text(a) + x =~= x);
        assert(columns_text(b) + y =~= y);
    } else {
        let rest_a = columns_text(a.drop_first()) + x;
        let rest_b = columns_text(b.drop_first()) + y;
        let flag_a = seq![
            if a[0].nullable {
                '?'
            } else {
                '!'
            },
        ];
        let flag_b = seq![
            if b[0].nullable {
                '?'
            } else {
                '!'
            },
        ];
        let after_a = framed(a[0].data_type) + (flag_a + rest_a);
        let after_b = framed(b[0].data_type) + (flag_b + rest_b);
        lemma_regroup(
            framed(a[0].name),
            framed(a[0].data_type),
            flag_a,
            columns_text(a.drop_first()),
            x,
        );
        lemma_regroup(
            framed(b[0].name),
            framed(b[0].data_type),
            flag_b,
            columns_text(b.drop_first()),
            y,
        );
        lemma_framed_prefix(a[0].name, b[0].name, after_a, after_b);
        lemma_framed_prefix(a[0].data_type, b[0].data_type, flag_a + rest_a, flag_b + rest_b);
        assert((flag_a + rest_a)[0] == (flag_b + rest_b)[0]);
        assert((flag_a + rest_a).skip(1) =~= rest_a);
        assert((flag_b + rest_b).skip(1) =~= rest_b);
        lemma_columns_prefix(a.drop_first(), b.drop_first(), x, y);
        assert forall|i: int| 0 <= i < a.len() implies (#[trigger] a[i]).name == b[i].name
            && a[i].data_type == b[i].data_type && a[i].nullable == b[i].nullable by {
            if i > 0 {
                assert(a.drop_first()[i - 1].name == b.drop_first()[i - 1].name);
            }
        }
    }
}

proof fn lemma_keys_equal(a: Seq<Seq<char>>, b: Seq<Seq<char>>)
    requires
        keys_text(a) == keys_text(b),
    ensures
        a == b,
    decreases a.len(),
{
    if a.len() == 0 {
        if b.len() > 0 {
            text::decimal_is_digits(b[0].len());
            assert(keys_text(b).len() > 0);
        }
        assert(a =~= b);
    } else if b.len() == 0 {
        text::decimal_is_digits(a[0].len());
        assert(keys_text(a).len() > 0);
    } else {
        lemma_framed_prefix(a[0], b[0], keys_text(a.drop_first()), keys_text(b.drop_first()));
        lemma_keys_equal(a.drop_first(), b.drop_first());
        assert(a =~= seq![a[0]] + a.drop_first());
        assert(b =~= seq![b[0]] + b.drop_first());
    }
}

/// Two shapes with the same identity have the same name, the same columns with the same types
/// and nullability, and the same key: a change of shape changes the identity.
pub proof fn shape_change_changes_the_id(a: ShapeView, b: ShapeView)
    requires
        shape_text(a) == shape_text(b),
    ensures
        a.schema == b.schema,
        a.table == b.table,
        a.columns.len() == b.columns.len(),
        forall|i: int|
            0 <= i < a.columns.len() ==> (#[trigger] a.columns[i]).name == b.columns[i].name
                && a.columns[i].data_type == b.columns[i].data_type && a.columns[i].nullable
                == b.columns[i].nullable,
        a.primary_keys == b.primary_keys,
{
    let tail_a = columns_text(a.columns) + keys_text(a.primary_keys);
    let tail_b = columns_text(b.columns) + keys_text(b.primary_keys);
    let count_a = text::decimal_text(a.columns.len()) + (seq![':'] + tail_a);
    let count_b = text::decimal_text(b.columns.len()) + (seq![':'] + tail_b);
    lemma_framed_prefix(a.schema, b.schema, framed(a.table) + count_a, framed(b.table) + count_b);
    lemma_framed_prefix(a.table, b.table, count_a, count_b);
    lemma_number_prefix(a.columns.len(), b.columns.len(), tail_a, tail_b);
    lemma_columns_prefix(
        a.columns,
        b.columns,
        keys_text(a.primary_keys),
        keys_text(b.primary_keys),
    );
    lemma_keys_equal(a.primary_keys, b.primary_keys);
}

// Schema events

/// A column in an event's payload.
pub open spec fn column_json(column: ColumnView) -> Json {
    Json::Object(
        Map::<Seq<char>, Json>::empty().insert("name"@, Json::Text(column.name)).insert(
            "data_type"@,
            Json::Text(column.data_type),
        ).insert("nullable"@, Json::Bool(column.nullable)).insert(
            "constraints"@,
            Json::Array(
                if column.is_primary_key {
                    seq![Json::Text("primary_key"@)]
                } else {
                    Seq::<Json>::empty()
                },
            ),
        ),
    )
}

/// Columns in an event's payload.
pub open spec fn columns_json(columns: Seq<ColumnView>) -> Seq<Json> {
    columns.map_values(|column: ColumnView| column_json(column))
}

/// A shape in an event's payload.
pub open spec fn shape_json(shape: ShapeView) -> Json {
    Json::Object(
        Map::<Seq<char>, Json>::empty().insert("schema"@, Json::Text(shape.schema)).insert(
            "table"@,
            Json::Text(shape.table),
        ).insert("columns"@, Json::Array(columns_json(shape.columns))).insert(
            "primary_keys"@,
            Json::Array(json::strings(shape.primary_keys)),
        ).insert("version"@, Json::Number(text::decimal_text(shape.version as nat))),
    )
}

fn column_value(column: &ColumnDef) -> (value: serde_json::Value)
    ensures
        json::json(value) == column_json(column@),
{
    let mut value = json::object();
    json::set_member(&mut value, "name".to_owned(), json::string(column.name.clone()));
    json::set_member(&mut value, "data_type".to_owned(), json::string(column.data_type.clone()));
    json::set_member(&mut value, "nullable".to_owned(), json::boolean(column.nullable));
    let mut constraints: Vec<String> = Vec::new();
    if column.is_primary_key {
        constraints.push("primary_key".to_owned());
    }
    proof {
        let items = json::strings(text::texts(constraints@));
        if column.is_primary_key {
            assert(items =~= seq![Json::Text("primary_key"@)]);
        } else {
            assert(items =~= Seq::<Json>::empty());
        }
    }
    json::set_member(&mut value, "constraints".to_owned(), json::string_array(&constraints));
    value
}

/// A shape as a JSON value.
pub fn shape_value(shape: &TableSchema) -> (value: serde_json::Value)
    ensures
        json::json(value) == shape_json(shape@),
{
    let mut columns: Vec<serde_json::Value> = Vec::new();
    let ghost whole = columns_json(shape@.columns);
    let mut i: usize = 0;
    while i < shape.columns.len()
        invariant
            i <= shape.columns@.len(),
            whole == columns_json(column_views(shape.columns@)),
            json::jsons(columns@) == whole.take(i as int),
        decreases shape.columns.len() - i,
    {
        let ghost before = json::jsons(columns@);
        let value = column_value(&shape.columns[i]);
        let ghost held = json::json(value);
        columns.push(value);
        proof {
            assert(json::jsons(columns@) =~= before.push(held));
            assert(column_views(shape.columns@)[i as int] == shape.columns@[i as int]@);
            assert(whole.take(i + 1) =~= whole.take(i as int).push(held));
        }
        i = i + 1;
    }
    proof {
        assert(whole.take(i as int) =~= whole);
    }
    let mut value = json::object();
    json::set_member(&mut value, "schema".to_owned(), json::string(shape.schema.clone()));
    json::set_member(&mut value, "table".to_owned(), json::string(shape.table.clone()));
    json::set_member(&mut value, "columns".to_owned(), json::array(columns));
    json::set_member(
        &mut value,
        "primary_keys".to_owned(),
        json::string_array(&shape.primary_keys),
    );
    json::set_member(&mut value, "version".to_owned(), json::number(shape.version));
    value
}

/// A schema statement, or an observed shape.
#[derive(Debug, PartialEq, Eq)]
pub struct CapturedDdl {
    pub ddl_type: String,
    pub schema: String,
    pub table: String,
    pub statement: String,
    /// The table's shape after the statement, where it is known.
    pub result_schema: Option<TableSchema>,
    pub ts: u64,
}

/// What a [`CapturedDdl`] holds.
pub struct DdlView {
    pub ddl_type: Seq<char>,
    pub schema: Seq<char>,
    pub table: Seq<char>,
    pub statement: Seq<char>,
    pub result_schema: Option<ShapeView>,
    pub ts: u64,
}

impl View for CapturedDdl {
    type V = DdlView;

    open spec fn view(&self) -> DdlView {
        DdlView {
            ddl_type: self.ddl_type@,
            schema: self.schema@,
            table: self.table@,
            statement: self.statement@,
            result_schema: match self.result_schema {
                Some(shape) => Some(shape@),
                None => None,
            },
            ts: self.ts,
        }
    }
}

/// The payload of a schema event.
pub open spec fn ddl_json(ddl: DdlView) -> Json {
    Json::Object(
        Map::<Seq<char>, Json>::empty().insert("ddl_type"@, Json::Text(ddl.ddl_type)).insert(
            "schema"@,
            Json::Text(ddl.schema),
        ).insert("table"@, Json::Text(ddl.table)).insert(
            "statement"@,
            Json::Text(ddl.statement),
        ).insert(
            "result_schema"@,
            match ddl.result_schema {
                Some(shape) => shape_json(shape),
                None => Json::Null,
            },
        ).insert("ts"@, Json::Number(text::decimal_text(ddl.ts as nat))),
    )
}

/// The event of a schema statement. It goes under a table name of its own, and names the shape
/// that it announces.
pub open spec fn ddl_event(
    ddl: DdlView,
    source_name: Seq<char>,
    offset: Seq<char>,
    ts: u64,
) -> EventView {
    EventView {
        before: BeforeView::Unavailable,
        after: Some(ddl_json(ddl)),
        op: Operation::SchemaChange,
        source: SourceView { source_name, offset, timestamp: ts },
        ts,
        schema: Some(ddl.schema),
        table: ddl.table + "__ddl_events"@,
        primary_key: None,
        snapshot: None,
        transaction: None,
        envelope_version: EVENT_ENVELOPE_VERSION,
        schema_id: match ddl.result_schema {
            Some(shape) => Some(shape_text(shape)),
            None => None,
        },
        unavailable_columns: Seq::empty(),
    }
}

impl CapturedDdl {
    /// The event of the statement; see [`ddl_event`].
    pub fn to_event(&self, source_name: &str, offset: String, ts: u64) -> (event: Event)
        ensures
            event@ == ddl_event(self@, source_name@, offset@, ts),
    {
        let mut value = json::object();
        json::set_member(&mut value, "ddl_type".to_owned(), json::string(self.ddl_type.clone()));
        json::set_member(&mut value, "schema".to_owned(), json::string(self.schema.clone()));
        json::set_member(&mut value, "table".to_owned(), json::string(self.table.clone()));
        json::set_member(&mut value, "statement".to_owned(), json::string(self.statement.clone()));
        let mut id: Option<String> = None;
        let shape = match &self.result_schema {
            Some(shape) => {
                id = Some(schema_id(shape));
                shape_value(shape)
            },
            None => json::null(),
        };
        json::set_member(&mut value, "result_schema".to_owned(), shape);
        json::set_member(&mut value, "ts".to_owned(), json::number(self.ts));
        let event = Event {
            before: BeforeImage::Unavailable,
            after: Some(value),
            op: Operation::SchemaChange,
            source: SourceMetadata { source_name: source_name.to_owned(), offset, timestamp: ts },
            ts,
            schema: Some(self.schema.clone()),
            table: text::join2(self.table.as_str(), "__ddl_events"),
            primary_key: None,
            snapshot: None,
            transaction: None,
            envelope_version: EVENT_ENVELOPE_VERSION,
            schema_id: id,
            unavailable_columns: Vec::new(),
        };
        proof {
            assert(event@.unavailable_columns =~= Seq::<Seq<char>>::empty());
        }
        event
    }
}

/// The statement of an observed shape, which no one ran.
pub open spec fn observation(schema: Seq<char>, table: Seq<char>, origin: Seq<char>) -> Seq<char> {
    "/* schema of "@ + schema + "."@ + table + " observed from "@ + origin + " */"@
}

/// The statement of an observed shape, which no one ran.
pub fn observed_statement(schema: &str, table: &str, origin: &str) -> (statement: String)
    ensures
        statement@ == observation(schema@, table@, origin@),
{
    let mut out = text::join5("/* schema of ", schema, ".", table, " observed from ");
    out.append(origin);
    out.append(" */");
    out
}

} // verus!
