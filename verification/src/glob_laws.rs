//! What a pattern matches, piece by piece, and what the lists of patterns let through.
use vstd::prelude::*;
use crate::event;
use crate::filter;
use crate::glob;
use crate::text;

verus! {

/// Whether one pattern covers a text up to a place, and another the rest.
pub open spec fn covered_apart(
    first: Seq<char>,
    second: Seq<char>,
    name: Seq<char>,
    place: int,
) -> bool {
    0 <= place <= name.len() && glob::covers(first, name.take(place)) && glob::covers(
        second,
        name.skip(place),
    )
}

/// Two patterns in a row cover what the one covers followed by what the other covers.
pub proof fn patterns_in_a_row(first: Seq<char>, second: Seq<char>, name: Seq<char>)
    ensures
        glob::covers(first + second, name) <==> exists|place: int| #[trigger]
            covered_apart(first, second, name, place),
    decreases first.len() + name.len(),
{
    let whole = first + second;
    if first.len() == 0 {
        assert(whole =~= second);
        assert(name.take(0) =~= Seq::<char>::empty());
        assert(name.skip(0) =~= name);
        if glob::covers(whole, name) {
            assert(covered_apart(first, second, name, 0));
        }
    } else {
        let less = first.drop_first();
        assert(whole.drop_first() =~= less + second);
        assert(whole[0] == first[0]);
        if name.len() > 0 {
            let rest = name.drop_first();
            assert forall|place: int| 0 < place <= name.len() implies name.take(
                place,
            ).drop_first() == #[trigger] rest.take(place - 1) && name.skip(place) == rest.skip(
                place - 1,
            ) && name.take(place)[0] == name[0] by {
                assert(name.take(place).drop_first() =~= rest.take(place - 1));
                assert(name.skip(place) =~= rest.skip(place - 1));
            }
        }
        if first[0] == '*' {
            patterns_in_a_row(less, second, name);
            if name.len() > 0 {
                patterns_in_a_row(first, second, name.drop_first());
            }
            if glob::covers(whole, name) {
                if glob::covers(less + second, name) {
                    let place = choose|place: int| #[trigger]
                        covered_apart(less, second, name, place);
                    assert(covered_apart(first, second, name, place));
                } else {
                    let rest = name.drop_first();
                    let place = choose|place: int| #[trigger]
                        covered_apart(first, second, rest, place);
                    assert(rest.take(place + 1 - 1) == rest.take(place));
                    assert(covered_apart(first, second, name, place + 1));
                }
            }
            if exists|place: int| #[trigger] covered_apart(first, second, name, place) {
                let place = choose|place: int| #[trigger]
                    covered_apart(first, second, name, place);
                if glob::covers(less, name.take(place)) {
                    assert(covered_apart(less, second, name, place));
                } else {
                    assert(place > 0);
                    let rest = name.drop_first();
                    assert(rest.take(place - 1) == name.take(place).drop_first());
                    assert(covered_apart(first, second, rest, place - 1));
                }
            }
        } else if name.len() > 0 {
            let rest = name.drop_first();
            patterns_in_a_row(less, second, rest);
            if glob::covers(whole, name) {
                let place = choose|place: int| #[trigger]
                    covered_apart(less, second, rest, place);
                assert(rest.take(place + 1 - 1) == rest.take(place));
                assert(covered_apart(first, second, name, place + 1));
            }
            if exists|place: int| #[trigger] covered_apart(first, second, name, place) {
                let place = choose|place: int| #[trigger]
                    covered_apart(first, second, name, place);
                assert(place > 0);
                assert(rest.take(place - 1) == name.take(place).drop_first());
                assert(covered_apart(less, second, rest, place - 1));
            }
        } else {
            if exists|place: int| #[trigger] covered_apart(first, second, name, place) {
                let place = choose|place: int| #[trigger]
                    covered_apart(first, second, name, place);
                assert(name.take(place).len() == 0);
            }
        }
    }
}

/// A star covers every text, a question mark any single character, and every other character
/// itself. No pattern at all covers nothing but the empty text.
pub proof fn single_characters_cover(c: char, name: Seq<char>)
    ensures
        glob::covers(seq!['*'], name),
        glob::covers(seq!['?'], name) <==> name.len() == 1,
        c != '*' && c != '?' ==> (glob::covers(seq![c], name) <==> name == seq![c]),
        glob::covers(Seq::empty(), name) <==> name.len() == 0,
    decreases name.len(),
{
    reveal_with_fuel(glob::covers, 3);
    let one = seq![c];
    assert(one.drop_first() =~= Seq::<char>::empty());
    assert(seq!['*'].drop_first() =~= Seq::<char>::empty());
    assert(seq!['?'].drop_first() =~= Seq::<char>::empty());
    if name.len() > 0 {
        single_characters_cover(c, name.drop_first());
        if name.len() == 1 {
            assert(name =~= seq![name[0]]);
            assert(name.drop_first() =~= Seq::<char>::empty());
        }
    }
}

/// A pattern without wildcards covers its own text and no other.
pub proof fn plain_pattern_covers_itself(pattern: Seq<char>, name: Seq<char>)
    requires
        !pattern.contains('*'),
        !pattern.contains('?'),
    ensures
        glob::covers(pattern, name) <==> pattern == name,
    decreases pattern.len(),
{
    if pattern.len() == 0 {
        assert(pattern =~= Seq::<char>::empty());
        if name.len() == 0 {
            assert(pattern =~= name);
        }
    } else {
        assert(pattern.contains(pattern[0]));
        let less = pattern.drop_first();
        assert forall|i: int| 0 <= i < less.len() implies less[i] != '*' && less[i] != '?' by {
            assert(pattern[i + 1] == less[i]);
            assert(pattern.contains(less[i]));
        }
        if name.len() > 0 {
            plain_pattern_covers_itself(less, name.drop_first());
            assert(pattern =~= seq![pattern[0]] + less);
            assert(name =~= seq![name[0]] + name.drop_first());
            if pattern == name {
                assert(less =~= name.drop_first());
            }
        }
    }
}

/// Folding makes the letters from `A` to `Z` those from `a` to `z` and leaves every other
/// character as it is.
pub proof fn folding_lowers_letters(name: Seq<char>, place: int)
    requires
        0 <= place < name.len(),
    ensures
        text::folded(name).len() == name.len(),
        'A' <= name[place] <= 'Z' ==> text::folded(name)[place] as nat == name[place] as nat + 32,
        !('A' <= name[place] <= 'Z') ==> text::folded(name)[place] == name[place],
{
}

proof fn lemma_first_dot(before: Seq<char>, after: Seq<char>)
    requires
        !before.contains('.'),
    ensures
        text::find_char(before + "."@ + after, '.') == before.len(),
        (before + "."@ + after).take(before.len() as int) == before,
        (before + "."@ + after).skip(1int + before.len()) == after,
    decreases before.len(),
{
    reveal_strlit(".");
    let whole = before + "."@ + after;
    assert(whole.take(before.len() as int) =~= before);
    assert(whole.skip(1int + before.len()) =~= after);
    if before.len() == 0 {
        assert(whole[0] == '.');
    } else {
        assert(before.contains(before[0]));
        let less = before.drop_first();
        assert forall|i: int| 0 <= i < less.len() implies less[i] != '.' by {
            assert(before[i + 1] == less[i]);
            assert(before.contains(less[i]));
        }
        lemma_first_dot(less, after);
        assert(whole.drop_first() =~= less + "."@ + after);
    }
}

proof fn lemma_no_dot(name: Seq<char>)
    requires
        !name.contains('.'),
    ensures
        text::find_char(name, '.') == name.len(),
    decreases name.len(),
{
    if name.len() > 0 {
        assert(name.contains(name[0]));
        let less = name.drop_first();
        assert forall|i: int| 0 <= i < less.len() implies less[i] != '.' by {
            assert(name[i + 1] == less[i]);
            assert(name.contains(less[i]));
        }
        lemma_no_dot(less);
    }
}

/// A pattern `schema.table` matches a table exactly where its parts cover the table's schema and
/// name, up to ASCII case; a pattern `table` where it covers the name, whatever the schema.
pub proof fn patterns_match_part_by_part(
    wanted_schema: Seq<char>,
    wanted_table: Seq<char>,
    schema: Seq<char>,
    table: Seq<char>,
)
    requires
        !wanted_schema.contains('.'),
        !schema.contains('.'),
    ensures
        glob::matches_table(wanted_schema + "."@ + wanted_table, schema + "."@ + table) <==> (
        glob::covers(text::folded(wanted_schema), text::folded(schema)) && glob::covers(
            text::folded(wanted_table),
            text::folded(table),
        )),
        !wanted_table.contains('.') ==> (glob::matches_table(
            wanted_table,
            schema + "."@ + table,
        ) <==> glob::covers(text::folded(wanted_table), text::folded(table))),
        !wanted_table.contains('.') && !table.contains('.') ==> (glob::matches_table(
            wanted_table,
            table,
        ) <==> glob::covers(text::folded(wanted_table), text::folded(table))),
{
    reveal_strlit(".");
    lemma_first_dot(wanted_schema, wanted_table);
    lemma_first_dot(schema, table);
    if !wanted_table.contains('.') {
        lemma_no_dot(wanted_table);
    }
    if !table.contains('.') {
        lemma_no_dot(table);
    }
}

/// An include list lets through what one of its entries lets through, and an exclude list keeps
/// out what one of its entries keeps out: each entry counts for itself, in whatever order.
pub proof fn each_entry_counts(
    schema: Option<Seq<char>>,
    name: Seq<char>,
    list: Seq<Seq<char>>,
    entry: Seq<char>,
    excluded: Seq<Seq<char>>,
)
    ensures
        list.len() > 0 ==> filter::allowed(schema, name, list.push(entry), excluded) == (
        filter::allowed(schema, name, list, excluded) || filter::allowed(
            schema,
            name,
            seq![entry],
            excluded,
        )),
        filter::allowed(schema, name, Seq::empty(), list.push(entry)) == (filter::allowed(
            schema,
            name,
            Seq::empty(),
            list,
        ) && filter::allowed(schema, name, Seq::empty(), seq![entry])),
        filter::allowed(schema, name, Seq::empty(), seq![entry]) == !filter::allowed(
            schema,
            name,
            seq![entry],
            Seq::empty(),
        ),
{
    let key = event::qualified(schema, name);
    let more = list.push(entry);
    let one = seq![entry];
    assert(one[0] == entry);
    assert(filter::listed(one, key) == filter::entry_matches(entry, key));
    if filter::listed(list, key) {
        let i = choose|i: int| 0 <= i < list.len() && filter::entry_matches(
            #[trigger] list[i],
            key,
        );
        assert(more[i] == list[i]);
    }
    if filter::entry_matches(entry, key) {
        assert(more[list.len() as int] == entry);
    }
    if filter::listed(more, key) {
        let i = choose|i: int| 0 <= i < more.len() && filter::entry_matches(
            #[trigger] more[i],
            key,
        );
        if i < list.len() {
            assert(list[i] == more[i]);
        }
    }
    assert(filter::listed(more, key) == (filter::listed(list, key) || filter::listed(one, key)));
}

/// An entry that is a table's name, without a schema, wildcards or white space, lets that table
/// through in every schema, whatever its case, and no table of another name.
pub proof fn named_table_is_let_through(
    entry: Seq<char>,
    schema: Seq<char>,
    table: Seq<char>,
)
    requires
        entry.len() > 0,
        !entry.contains('.'),
        !entry.contains('*'),
        !entry.contains('?'),
        !text::is_space(entry[0]),
        !text::is_space(entry.last()),
        schema.len() > 0,
        !schema.contains('.'),
    ensures
        filter::allowed(Some(schema), table, seq![entry], Seq::empty()) <==> text::folded(entry)
            == text::folded(table),
{
    reveal_strlit(".");
    text::trimmed_is_itself(entry);
    let key = event::qualified(Some(schema), table);
    let one = seq![entry];
    assert(key =~= schema + "."@ + table);
    patterns_match_part_by_part(Seq::empty(), entry, schema, table);
    assert forall|i: int| 0 <= i < entry.len() implies text::folded(entry)[i] != '*'
        && text::folded(entry)[i] != '?' by {
        assert(entry.contains(entry[i]));
    }
    plain_pattern_covers_itself(text::folded(entry), text::folded(table));
    assert(one[0] == entry);
    assert(filter::listed(one, key) == filter::entry_matches(entry, key));
}

/// The entries that reach every schema are those that are not blank and name none, trimmed.
pub proof fn schema_agnostic_entries_name_no_schema(list: Seq<Seq<char>>, entry: Seq<char>)
    ensures
        filter::schema_agnostic_entries(list).contains(entry) <==> (entry.len() > 0
            && !entry.contains('.') && exists|i: int|
            0 <= i < list.len() && text::trimmed(#[trigger] list[i]) == entry),
    decreases list.len(),
{
    let found = filter::schema_agnostic_entries(list);
    if list.len() > 0 {
        let less = list.drop_last();
        let before = filter::schema_agnostic_entries(less);
        let last = text::trimmed(list.last());
        schema_agnostic_entries_name_no_schema(less, entry);
        lemma_dot_found(last);
        lemma_dot_found(entry);
        if found.contains(entry) {
            let k = choose|k: int| 0 <= k < found.len() && found[k] == entry;
            if k < before.len() {
                assert(before[k] == entry);
                assert(before.contains(entry));
                let i = choose|i: int|
                    0 <= i < less.len() && text::trimmed(#[trigger] less[i]) == entry;
                assert(list[i] == less[i]);
            } else {
                assert(list[list.len() - 1] == list.last());
            }
        }
        if entry.len() > 0 && !entry.contains('.') && exists|i: int|
            0 <= i < list.len() && text::trimmed(#[trigger] list[i]) == entry {
            let i = choose|i: int|
                0 <= i < list.len() && text::trimmed(#[trigger] list[i]) == entry;
            if i < less.len() {
                assert(less[i] == list[i]);
                assert(before.contains(entry));
                let k = choose|k: int| 0 <= k < before.len() && before[k] == entry;
                assert(found[k] == entry);
            } else {
                assert(found[found.len() - 1] == entry);
            }
        }
    }
}

proof fn lemma_dot_found(name: Seq<char>)
    ensures
        0 <= text::find_char(name, '.') <= name.len(),
        text::find_char(name, '.') < name.len() <==> name.contains('.'),
    decreases name.len(),
{
    if name.len() > 0 && name[0] != '.' {
        let less = name.drop_first();
        lemma_dot_found(less);
        if name.contains('.') {
            let k = choose|k: int| 0 <= k < name.len() && name[k] == '.';
            assert(less[k - 1] == '.');
        }
        if less.contains('.') {
            let k = choose|k: int| 0 <= k < less.len() && less[k] == '.';
            assert(name[k + 1] == '.');
        }
    } else if name.len() > 0 {
        assert(name[0] == '.');
    }
}

} // verus!
