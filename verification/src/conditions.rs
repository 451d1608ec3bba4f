//! Row filters of an incremental snapshot, keyed by table.
use vstd::prelude::*;
use crate::text;

verus! {

#[verifier::external_type_specification]
#[verifier::external_body]
#[verifier::reject_recursive_types(K)]
#[verifier::reject_recursive_types(V)]
#[verifier::reject_recursive_types(S)]
pub struct ExAHashMap<K, V, S>(ahash::AHashMap<K, V, S>);

#[verifier::external_type_specification]
#[verifier::external_body]
pub struct ExRandomState(ahash::RandomState);

/// The entries of a map from text to text.
pub uninterp spec fn filters(map: ahash::AHashMap<String, String>) -> Map<Seq<char>, Seq<char>>;

/// No entries.
pub open spec fn nothing() -> Map<Seq<char>, Seq<char>> {
    Map::empty()
}

/// `AHashMap::new` is empty.
#[verifier::external_body]
pub(crate) fn no_filters() -> (created: ahash::AHashMap<String, String>)
    ensures
        filters(created) == nothing(),
{
    ahash::AHashMap::new()
}

/// `AHashMap::insert` sets the entry of a key.
#[verifier::external_body]
pub(crate) fn set_filter(map: &mut ahash::AHashMap<String, String>, key: String, value: String)
    ensures
        filters(*final(map)) == filters(*old(map)).insert(key@, value@),
{
    map.insert(key, value);
}

/// `AHashMap::iter` hands out each entry once, in an order that it leaves open.
#[verifier::external_body]
pub(crate) fn filter_entries(map: &ahash::AHashMap<String, String>) -> (entries: Vec<
    (String, String),
>)
    ensures
        forall|i: int|
            0 <= i < entries@.len() ==> filters(*map).contains_key(#[trigger] entries@[i].0@)
                && filters(*map)[entries@[i].0@] == entries@[i].1@,
        forall|key: Seq<char>| #[trigger]
            filters(*map).contains_key(key) ==> exists|i: int|
                0 <= i < entries@.len() && #[trigger] entries@[i].0@ == key,
        forall|i: int, j: int|
            0 <= i < j < entries@.len() ==> #[trigger] entries@[i].0@ != #[trigger] entries@[j].0@,
{
    map.iter().map(|(key, value)| (key.clone(), value.clone())).collect()
}

/// `AHashMap::clone` holds the same entries.
#[verifier::external_body]
pub(crate) fn clone_filters(map: &ahash::AHashMap<String, String>) -> (copy: ahash::AHashMap<
    String,
    String,
>)
    ensures
        filters(copy) == filters(*map),
{
    map.clone()
}

/// Whether a filter's key names the table: by the reference that the operator wrote, or by the
/// `schema.table` that the catalog resolved it to, up to ASCII case.
pub open spec fn names_table(
    key: Seq<char>,
    table_ref: Seq<char>,
    schema: Seq<char>,
    name: Seq<char>,
) -> bool {
    ||| text::folded(key) == text::folded(table_ref)
    ||| text::folded(key) == text::folded(schema + "."@ + name)
}

/// Whether `found` is a filter that the map holds for the table, `None` where it holds none.
pub open spec fn filter_for(
    map: Map<Seq<char>, Seq<char>>,
    table_ref: Seq<char>,
    schema: Seq<char>,
    name: Seq<char>,
    found: Option<Seq<char>>,
) -> bool {
    match found {
        Some(filter) => exists|key: Seq<char>| #[trigger]
            map.contains_key(key) && names_table(key, table_ref, schema, name) && map[key]
                == filter,
        None => forall|key: Seq<char>| #[trigger]
            map.contains_key(key) ==> !names_table(key, table_ref, schema, name),
    }
}

/// The filter that the map holds for a table.
///
/// Both forms of the name count, because they differ where a reference leaves the schema out; a
/// filter that is dropped for its form would snapshot the whole table. Where several keys name
/// the table, which of their filters is taken is left open.
pub fn lookup_condition(
    conditions: &ahash::AHashMap<String, String>,
    table_ref: &str,
    schema: &str,
    name: &str,
) -> (found: Option<String>)
    ensures
        filter_for(
            filters(*conditions),
            table_ref@,
            schema@,
            name@,
            text::text_option(found),
        ),
{
    let canonical = text::join3(schema, ".", name);
    let entries = filter_entries(conditions);
    let ghost map = filters(*conditions);
    let mut i: usize = 0;
    while i < entries.len()
        invariant
            i <= entries@.len(),
            map == filters(*conditions),
            canonical@ == schema@ + "."@ + name@,
            forall|j: int|
                0 <= j < entries@.len() ==> map.contains_key(#[trigger] entries@[j].0@)
                    && map[entries@[j].0@] == entries@[j].1@,
            forall|key: Seq<char>| #[trigger]
                map.contains_key(key) ==> exists|j: int|
                    0 <= j < entries@.len() && #[trigger] entries@[j].0@ == key,
            forall|j: int|
                0 <= j < i ==> !names_table(#[trigger] entries@[j].0@, table_ref@, schema@, name@),
        decreases entries.len() - i,
    {
        let key = entries[i].0.as_str();
        if text::same_folded(key, table_ref) || text::same_folded(key, canonical.as_str()) {
            proof {
                assert(map.contains_key(entries@[i as int].0@));
                assert(names_table(entries@[i as int].0@, table_ref@, schema@, name@));
            }
            return Some(entries[i].1.clone());
        }
        i = i + 1;
    }
    proof {
        assert forall|key: Seq<char>| #[trigger] map.contains_key(key) implies !names_table(
            key,
            table_ref@,
            schema@,
            name@,
        ) by {
            let j = choose|j: int| 0 <= j < entries@.len() && #[trigger] entries@[j].0@ == key;
            assert(!names_table(entries@[j].0@, table_ref@, schema@, name@));
        }
    }
    None
}

} // verus!
