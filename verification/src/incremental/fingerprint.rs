//! Row identities, by which chunk rows and stream events of the same row find each other.
use vstd::prelude::*;
use crate::event::{Event, EventView};
use crate::json;
use crate::json::Json;
use crate::text;

verus! {

/// The identity of a row: its table, and the text of its key values.
pub open spec fn fingerprint(table: Seq<char>, values: Seq<Json>) -> Seq<char> {
    table + "|"@ + json::array_text(values)
}

/// The key values of a row, in key order; a column that the row lacks counts as `Null`.
pub open spec fn key_values(columns: Seq<Seq<char>>, row: Json) -> Seq<Json> {
    columns.map_values(|column: Seq<char>| row.member_or_null(column))
}

/// The identity of a row by its payload.
pub open spec fn row_fingerprint(table: Seq<char>, columns: Seq<Seq<char>>, row: Json) -> Seq<
    char,
> {
    fingerprint(table, key_values(columns, row))
}

/// The identity of the row that a stream event is about, where the event names a key and carries
/// the row's new or, failing that, old image.
pub open spec fn event_identity(event: EventView) -> Option<Seq<char>> {
    match event.primary_key {
        Some(columns) => if columns.len() == 0 {
            None
        } else {
            match event.after {
                Some(row) => Some(row_fingerprint(event.table, columns, row)),
                None => match event.before.row() {
                    Some(row) => Some(row_fingerprint(event.table, columns, row)),
                    None => None,
                },
            }
        },
        None => None,
    }
}

/// The identity of a row: its table, and the text of its key values. Within one table, rows with
/// different key values have different identities.
pub fn pk_fingerprint(table: &str, values: &[serde_json::Value]) -> (id: String)
    ensures
        id@ == fingerprint(table@, json::jsons(values@)),
        forall|other: Seq<serde_json::Value>|
            fingerprint(table@, #[trigger] json::jsons(other)) == id@ ==> json::jsons(other)
                == json::jsons(values@),
{
    let rendered = json::render_array(values).unwrap();
    let id = text::join3(table, "|", rendered.as_str());
    proof {
        let lead = table@ + "|"@;
        assert forall|other: Seq<serde_json::Value>|
            fingerprint(table@, #[trigger] json::jsons(other)) == id@ implies json::jsons(other)
            == json::jsons(values@) by {
            let theirs = json::array_text(json::jsons(other));
            assert(theirs =~= (lead + theirs).skip(lead.len() as int));
            assert(rendered@ =~= (lead + rendered@).skip(lead.len() as int));
        }
    }
    id
}

/// The identity of a row by its payload.
///
/// Chunk rows and stream events both take it from the payload, so that the two agree; a cursor
/// may hold the same key in another form.
pub fn fingerprint_from_payload(
    table: &str,
    pk_columns: &[String],
    payload: &serde_json::Value,
) -> (id: String)
    ensures
        id@ == row_fingerprint(table@, text::texts(pk_columns@), json::json(*payload)),
{
    let mut values: Vec<serde_json::Value> = Vec::new();
    let ghost columns = text::texts(pk_columns@);
    let ghost row = json::json(*payload);
    let mut i: usize = 0;
    while i < pk_columns.len()
        invariant
            i <= pk_columns@.len(),
            columns == text::texts(pk_columns@),
            row == json::json(*payload),
            json::jsons(values@) == key_values(columns, row).take(i as int),
        decreases pk_columns.len() - i,
    {
        let ghost before = json::jsons(values@);
        let value = match json::member(payload, pk_columns[i].as_str()) {
            Some(found) => found.clone(),
            None => json::null(),
        };
        let ghost held = json::json(value);
        values.push(value);
        proof {
            assert(json::jsons(values@) =~= before.push(held));
            assert(key_values(columns, row).take(i + 1) =~= key_values(columns, row).take(
                i as int,
            ).push(held));
        }
        i = i + 1;
    }
    proof {
        assert(key_values(columns, row).take(i as int) =~= key_values(columns, row));
    }
    pk_fingerprint(table, values.as_slice())
}

/// The identity of the row that a stream event is about, or `None` where it has no usable key.
pub fn event_fingerprint(event: &Event) -> (id: Option<String>)
    ensures
        text::text_option(id) == event_identity(event@),
{
    match &event.primary_key {
        Some(columns) => {
            if columns.len() == 0 {
                return None;
            }
            match &event.after {
                Some(row) => Some(
                    fingerprint_from_payload(event.table.as_str(), columns.as_slice(), row),
                ),
                None => match event.before.row() {
                    Some(row) => Some(
                        fingerprint_from_payload(event.table.as_str(), columns.as_slice(), row),
                    ),
                    None => None,
                },
            }
        },
        None => None,
    }
}

/// Identities of rows of two tables differ where neither table's name starts the other's up to
/// the separator.
pub proof fn fingerprints_are_scoped_to_the_table(
    table: Seq<char>,
    other: Seq<char>,
    values: Seq<Json>,
    other_values: Seq<Json>,
)
    requires
        table != other,
        !table.contains('|'),
        !other.contains('|'),
    ensures
        fingerprint(table, values) != fingerprint(other, other_values),
{
    let a = fingerprint(table, values);
    let b = fingerprint(other, other_values);
    reveal_strlit("|");
    if a == b {
        assert(a[table.len() as int] == '|');
        assert(b[other.len() as int] == '|');
        if table.len() < other.len() {
            assert(other[table.len() as int] == '|');
        } else if other.len() < table.len() {
            assert(table[other.len() as int] == '|');
        } else {
            assert(a.take(table.len() as int) =~= table);
            assert(b.take(table.len() as int) =~= other);
        }
    }
}

} // verus!
