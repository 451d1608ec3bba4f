//! Include and exclude lists: which tables' changes may leave the database.
use vstd::prelude::*;
use crate::event;
use crate::glob;
use crate::text;

verus! {

/// Whether an entry of the list, trimmed, matches the table; a blank entry matches nothing.
pub open spec fn listed(list: Seq<Seq<char>>, key: Seq<char>) -> bool {
    exists|i: int| 0 <= i < list.len() && entry_matches(#[trigger] list[i], key)
}

/// Whether one entry, trimmed, matches the table; a blank entry matches nothing.
pub open spec fn entry_matches(entry: Seq<char>, key: Seq<char>) -> bool {
    text::trimmed(entry).len() > 0 && glob::matches_table(text::trimmed(entry), key)
}

/// Whether a table passes: with an include list it must be listed there; without one it must
/// not be listed in the exclude list.
pub open spec fn allowed(
    schema: Option<Seq<char>>,
    table: Seq<char>,
    include_list: Seq<Seq<char>>,
    exclude_list: Seq<Seq<char>>,
) -> bool {
    let key = event::qualified(schema, table);
    if include_list.len() > 0 {
        listed(include_list, key)
    } else {
        !listed(exclude_list, key)
    }
}

fn is_listed(list: &[String], key: &str) -> (yes: bool)
    ensures
        yes == listed(text::texts(list@), key@),
{
    let mut i: usize = 0;
    while i < list.len()
        invariant
            i <= list@.len(),
            forall|j: int| 0 <= j < i ==> !entry_matches(#[trigger] text::texts(list@)[j], key@),
        decreases list.len() - i,
    {
        let pattern = text::trim(list[i].as_str());
        proof {
            reveal_strlit("");
            if pattern@.len() == 0 {
                assert(pattern@ =~= ""@);
            }
            assert(text::texts(list@)[i as int] == list@[i as int]@);
        }
        if !text::same_text(pattern.as_str(), "") && glob::table_matches(pattern.as_str(), key) {
            return true;
        }
        i = i + 1;
    }
    false
}

/// Whether an event for the table should be forwarded; see [`allowed`].
///
/// Entries are case-insensitive glob patterns over `schema.table`, or over the bare table name
/// where the source reports no schema.
pub fn table_is_allowed(
    schema: Option<&str>,
    table: &str,
    include_list: &[String],
    exclude_list: &[String],
) -> (yes: bool)
    ensures
        yes == allowed(
            match schema {
                Some(schema) => Some(schema@),
                None => None,
            },
            table@,
            text::texts(include_list@),
            text::texts(exclude_list@),
        ),
{
    if include_list.len() == 0 && exclude_list.len() == 0 {
        return true;
    }
    let key = event::qualify(schema, table);
    if include_list.len() > 0 {
        return is_listed(include_list, key.as_str());
    }
    !is_listed(exclude_list, key.as_str())
}

/// The trimmed entries of an include list that name no schema, in list order.
pub open spec fn schema_agnostic_entries(list: Seq<Seq<char>>) -> Seq<Seq<char>>
    decreases list.len(),
{
    if list.len() == 0 {
        Seq::empty()
    } else {
        let before = schema_agnostic_entries(list.drop_last());
        let last = text::trimmed(list.last());
        if glob::schema_agnostic(last) {
            before.push(last)
        } else {
            before
        }
    }
}

/// The entries of an include list that deserve a warning at startup: each names no schema, so it
/// reaches the table in every schema, including ones that the list was written to keep out.
pub fn warn_on_schema_agnostic_include_entries(include_list: &[String]) -> (entries: Vec<String>)
    ensures
        text::texts(entries@) == schema_agnostic_entries(text::texts(include_list@)),
{
    let mut entries: Vec<String> = Vec::new();
    let mut i: usize = 0;
    while i < include_list.len()
        invariant
            i <= include_list@.len(),
            text::texts(entries@) == schema_agnostic_entries(
                text::texts(include_list@).take(i as int),
            ),
        decreases include_list.len() - i,
    {
        let pattern = text::trim(include_list[i].as_str());
        let ghost before = text::texts(entries@);
        let ghost word = pattern@;
        proof {
            let prefix = text::texts(include_list@).take(i + 1);
            assert(prefix.drop_last() =~= text::texts(include_list@).take(i as int));
            assert(prefix.last() == include_list@[i as int]@);
        }
        if glob::is_schema_agnostic(pattern.as_str()) {
            entries.push(pattern);
            proof {
                assert(text::texts(entries@) =~= before.push(word));
            }
        }
        i = i + 1;
    }
    proof {
        assert(text::texts(include_list@).take(i as int) =~= text::texts(include_list@));
    }
    entries
}

/// With both lists empty every table passes.
pub proof fn empty_lists_allow_everything(schema: Option<Seq<char>>, table: Seq<char>)
    ensures
        allowed(schema, table, Seq::empty(), Seq::empty()),
{
}

/// Where there is an include list, the exclude list decides nothing.
pub proof fn include_list_takes_precedence(
    schema: Option<Seq<char>>,
    table: Seq<char>,
    include_list: Seq<Seq<char>>,
    exclude_list: Seq<Seq<char>>,
)
    requires
        include_list.len() > 0,
    ensures
        allowed(schema, table, include_list, exclude_list) == listed(include_list, event::qualified(schema, table)),
{
}

/// A blank entry, anywhere in a list, matches no table: without it the list matches the same.
pub proof fn blank_entry_is_ignored(list: Seq<Seq<char>>, place: int, key: Seq<char>)
    requires
        0 <= place < list.len(),
        text::trimmed(list[place]).len() == 0,
    ensures
        listed(list.remove(place), key) == listed(list, key),
{
    let rest = list.remove(place);
    if listed(list, key) {
        let i = choose|i: int| 0 <= i < list.len() && entry_matches(#[trigger] list[i], key);
        if i < place {
            assert(entry_matches(rest[i], key));
        } else {
            assert(rest[i - 1] == list[i]);
            assert(entry_matches(rest[i - 1], key));
        }
    }
    if listed(rest, key) {
        let i = choose|i: int| 0 <= i < rest.len() && entry_matches(#[trigger] rest[i], key);
        if i < place {
            assert(entry_matches(list[i], key));
        } else {
            assert(rest[i] == list[i + 1]);
            assert(entry_matches(list[i + 1], key));
        }
    }
}

} // verus!
