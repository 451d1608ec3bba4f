//! Case-insensitive glob patterns over `schema.table` names.
use vstd::prelude::*;
use crate::text;

verus! {

/// Whether a pattern covers a text: `*` stands for any run of characters, `?` for any one
/// character, and every other character for itself.
pub open spec fn covers(pattern: Seq<char>, name: Seq<char>) -> bool
    decreases pattern.len() + name.len(),
{
    if pattern.len() == 0 {
        name.len() == 0
    } else if pattern[0] == '*' {
        covers(pattern.drop_first(), name) || (name.len() > 0 && covers(pattern, name.drop_first()))
    } else {
        name.len() > 0 && (pattern[0] == '?' || pattern[0] == name[0]) && covers(
            pattern.drop_first(),
            name.drop_first(),
        )
    }
}

/// Whether a pattern covers a text up to ASCII case.
pub open spec fn segment_matches(pattern: Seq<char>, name: Seq<char>) -> bool {
    covers(text::folded(pattern), text::folded(name))
}

/// The part of a `schema.table` name before its first dot, where it has one.
pub open spec fn schema_part(name: Seq<char>) -> Option<Seq<char>> {
    let dot = text::find_char(name, '.');
    if dot < name.len() {
        Some(name.take(dot))
    } else {
        None
    }
}

/// The part of a `schema.table` name after its first dot, or the whole name.
pub open spec fn table_part(name: Seq<char>) -> Seq<char> {
    let dot = text::find_char(name, '.');
    if dot < name.len() {
        name.skip(dot + 1)
    } else {
        name
    }
}

/// Whether a pattern matches a table. A pattern that names no schema matches the table in every
/// schema; one that names a schema matches no table that is reported without one.
pub open spec fn matches_table(pattern: Seq<char>, key: Seq<char>) -> bool {
    &&& segment_matches(table_part(pattern), table_part(key))
    &&& match schema_part(pattern) {
        Some(wanted) => match schema_part(key) {
            Some(schema) => segment_matches(wanted, schema),
            None => false,
        },
        None => true,
    }
}

/// Decides [`covers`] by filling, for each suffix of the pattern, the row of answers over all
/// suffixes of the name; `end` is the answer over the empty suffix.
fn covers_chars(pattern: &Vec<char>, name: &Vec<char>) -> (yes: bool)
    ensures
        yes == covers(pattern@, name@),
{
    let n = name.len();
    let mut row: Vec<bool> = Vec::new();
    while row.len() < n
        invariant
            n == name@.len(),
            row@.len() <= n,
            forall|k: int| 0 <= k < row@.len() ==> row@[k] == false,
        decreases n - row.len(),
    {
        row.push(false);
    }
    let mut end = true;
    let mut i: usize = pattern.len();
    proof {
        assert(pattern@.skip(i as int) =~= Seq::<char>::empty());
        assert(name@.skip(n as int) =~= Seq::<char>::empty());
    }
    while i > 0
        invariant
            n == name@.len(),
            i <= pattern@.len(),
            row@.len() == n,
            end == covers(pattern@.skip(i as int), Seq::<char>::empty()),
            forall|k: int|
                0 <= k < n ==> #[trigger] row@[k] == covers(pattern@.skip(i as int), name@.skip(k)),
        decreases i,
    {
        i = i - 1;
        let c = pattern[i];
        let ghost rest = pattern@.skip(i + 1);
        let ghost here = pattern@.skip(i as int);
        proof {
            assert(here.drop_first() =~= rest);
            assert(here[0] == c);
            assert(name@.skip(n as int) =~= Seq::<char>::empty());
        }
        let next_end = end && c == '*';
        let mut below = next_end;
        let mut row_below = end;
        let mut m: usize = n;
        while m > 0
            invariant
                n == name@.len(),
                m <= n,
                row@.len() == n,
                here.len() > 0,
                here.drop_first() == rest,
                here[0] == c,
                below == covers(here, name@.skip(m as int)),
                row_below == covers(rest, name@.skip(m as int)),
                forall|k: int| 0 <= k < m ==> #[trigger] row@[k] == covers(rest, name@.skip(k)),
                forall|k: int| m <= k < n ==> #[trigger] row@[k] == covers(here, name@.skip(k)),
            decreases m,
        {
            m = m - 1;
            let ghost tail = name@.skip(m as int);
            proof {
                assert(tail.drop_first() =~= name@.skip(m + 1));
                assert(tail[0] == name@[m as int]);
            }
            let old_cell = row[m];
            let hit = if c == '*' {
                old_cell || below
            } else {
                (c == '?' || c == name[m]) && row_below
            };
            row.set(m, hit);
            below = hit;
            row_below = old_cell;
        }
        end = next_end;
    }
    proof {
        assert(pattern@.skip(0) =~= pattern@);
        assert(name@.skip(0) =~= name@);
    }
    if n == 0 {
        proof {
            assert(name@ =~= Seq::<char>::empty());
        }
        end
    } else {
        row[0]
    }
}

/// The first place of a character in a text, or the text's length.
fn position(chars: &Vec<char>, c: char) -> (place: usize)
    ensures
        place as int == text::find_char(chars@, c),
        place <= chars@.len(),
{
    let mut i: usize = 0;
    proof {
        assert(chars@.skip(0) =~= chars@);
    }
    while i < chars.len() && chars[i] != c
        invariant
            i <= chars@.len(),
            text::find_char(chars@, c) == i + text::find_char(chars@.skip(i as int), c),
        decreases chars.len() - i,
    {
        proof {
            assert(chars@.skip(i as int).drop_first() =~= chars@.skip(i + 1));
        }
        i = i + 1;
    }
    i
}

fn part(chars: &Vec<char>, from: usize, to: usize) -> (out: Vec<char>)
    requires
        from <= to <= chars@.len(),
    ensures
        out@ == chars@.subrange(from as int, to as int),
{
    let mut out: Vec<char> = Vec::new();
    let mut i: usize = from;
    while i < to
        invariant
            from <= i <= to <= chars@.len(),
            out@ == chars@.subrange(from as int, i as int),
        decreases to - i,
    {
        out.push(chars[i]);
        proof {
            assert(chars@.subrange(from as int, i + 1) =~= chars@.subrange(
                from as int,
                i as int,
            ).push(chars@[i as int]));
        }
        i = i + 1;
    }
    out
}

/// Folding to lower case leaves dots where they are.
proof fn lemma_folded_dot(name: Seq<char>)
    ensures
        text::find_char(text::folded(name), '.') == text::find_char(name, '.'),
    decreases name.len(),
{
    if name.len() > 0 {
        lemma_folded_dot(name.drop_first());
        assert(text::folded(name).drop_first() =~= text::folded(name.drop_first()));
    }
}

proof fn lemma_find_bound(name: Seq<char>, c: char)
    ensures
        0 <= text::find_char(name, c) <= name.len(),
    decreases name.len(),
{
    if name.len() > 0 {
        lemma_find_bound(name.drop_first(), c);
    }
}

/// Folding a name folds its parts.
proof fn lemma_folded_parts(name: Seq<char>)
    ensures
        table_part(text::folded(name)) == text::folded(table_part(name)),
        schema_part(text::folded(name)) == (match schema_part(name) {
            Some(schema) => Some(text::folded(schema)),
            None => None,
        }),
{
    lemma_folded_dot(name);
    lemma_find_bound(name, '.');
    let dot = text::find_char(name, '.');
    if dot < name.len() {
        assert(text::folded(name).take(dot) =~= text::folded(name.take(dot)));
        assert(text::folded(name).skip(dot + 1) =~= text::folded(name.skip(dot + 1)));
    }
}

/// Whether a pattern matches a table; see [`matches_table`].
pub fn table_matches(pattern: &str, key: &str) -> (yes: bool)
    ensures
        yes == matches_table(pattern@, key@),
{
    let p = text::fold_chars(pattern);
    let k = text::fold_chars(key);
    let p_dot = position(&p, '.');
    let k_dot = position(&k, '.');
    proof {
        lemma_folded_parts(pattern@);
        lemma_folded_parts(key@);
        assert(p@.skip(p_dot + 1) =~= p@.subrange(p_dot + 1, p@.len() as int));
        assert(k@.skip(k_dot + 1) =~= k@.subrange(k_dot + 1, k@.len() as int));
        assert(p@.take(p_dot as int) =~= p@.subrange(0, p_dot as int));
        assert(k@.take(k_dot as int) =~= k@.subrange(0, k_dot as int));
    }
    let p_table = if p_dot < p.len() {
        part(&p, p_dot + 1, p.len())
    } else {
        part(&p, 0, p.len())
    };
    let k_table = if k_dot < k.len() {
        part(&k, k_dot + 1, k.len())
    } else {
        part(&k, 0, k.len())
    };
    proof {
        assert(p@.subrange(0, p@.len() as int) =~= p@);
        assert(k@.subrange(0, k@.len() as int) =~= k@);
    }
    if !covers_chars(&p_table, &k_table) {
        return false;
    }
    if p_dot < p.len() {
        if k_dot < k.len() {
            let p_schema = part(&p, 0, p_dot);
            let k_schema = part(&k, 0, k_dot);
            covers_chars(&p_schema, &k_schema)
        } else {
            false
        }
    } else {
        true
    }
}

/// Whether a pattern names no schema, so that it reaches a table of that name in every schema.
pub open spec fn schema_agnostic(pattern: Seq<char>) -> bool {
    pattern.len() > 0 && schema_part(pattern) is None
}

/// Whether a pattern names no schema, so that it reaches a table of that name in every schema.
pub fn is_schema_agnostic(pattern: &str) -> (yes: bool)
    ensures
        yes == schema_agnostic(pattern@),
{
    let chars = text::to_chars(pattern);
    let dot = position(&chars, '.');
    chars.len() > 0 && dot == chars.len()
}

/// Matching ignores ASCII case on both sides.
pub proof fn matching_ignores_case(pattern: Seq<char>, key: Seq<char>)
    ensures
        matches_table(text::folded(pattern), text::folded(key)) == matches_table(pattern, key),
{
    lemma_folded_parts(pattern);
    lemma_folded_parts(key);
    assert forall|name: Seq<char>| #[trigger]
        text::folded(text::folded(name)) == text::folded(name) by {
        assert(text::folded(text::folded(name)) =~= text::folded(name));
    }
}

/// A pattern that names no schema matches a table in every schema that it matches it in one.
pub proof fn unqualified_pattern_reaches_every_schema(
    pattern: Seq<char>,
    schema: Seq<char>,
    table: Seq<char>,
)
    requires
        schema_part(pattern) is None,
        !schema.contains('.'),
    ensures
        matches_table(pattern, schema + seq!['.'] + table) == segment_matches(pattern, table),
{
    lemma_dot_after(schema, table);
    let key = schema + seq!['.'] + table;
    assert(key.skip(schema.len() as int + 1) =~= table);
}

/// A pattern that names a schema matches no table that is reported without one.
pub proof fn qualified_pattern_needs_a_schema(pattern: Seq<char>, table: Seq<char>)
    requires
        schema_part(pattern) is Some,
        !table.contains('.'),
    ensures
        !matches_table(pattern, table),
{
    lemma_no_dot(table);
}

/// `schema.*` matches every table of that schema, and none of another.
pub proof fn star_matches_the_whole_schema(schema: Seq<char>, other: Seq<char>, table: Seq<char>)
    requires
        !schema.contains('.'),
        !other.contains('.'),
    ensures
        matches_table(schema + seq!['.', '*'], other + seq!['.'] + table) == segment_matches(
            schema,
            other,
        ),
{
    lemma_dot_after(schema, seq!['*']);
    lemma_dot_after(other, table);
    assert(schema + seq!['.'] + seq!['*'] =~= schema + seq!['.', '*']);
    let pattern = schema + seq!['.', '*'];
    let key = other + seq!['.'] + table;
    assert(pattern.skip(schema.len() as int + 1) =~= seq!['*']);
    assert(key.skip(other.len() as int + 1) =~= table);
    assert(pattern.take(schema.len() as int) =~= schema);
    assert(key.take(other.len() as int) =~= other);
    lemma_star_covers(text::folded(table));
    assert(text::folded(seq!['*']) =~= seq!['*']);
}

proof fn lemma_star_covers(name: Seq<char>)
    ensures
        covers(seq!['*'], name),
    decreases name.len(),
{
    reveal_with_fuel(covers, 3);
    if name.len() > 0 {
        lemma_star_covers(name.drop_first());
    } else {
        assert(seq!['*'].drop_first() =~= Seq::<char>::empty());
    }
}

proof fn lemma_no_dot(name: Seq<char>)
    requires
        !name.contains('.'),
    ensures
        text::find_char(name, '.') == name.len(),
    decreases name.len(),
{
    if name.len() > 0 {
        assert(name[0] != '.');
        assert forall|i: int| 0 <= i < name.drop_first().len() implies name.drop_first()[i]
            != '.' by {
            assert(name[i + 1] != '.');
        }
        lemma_no_dot(name.drop_first());
    }
}

proof fn lemma_dot_after(schema: Seq<char>, table: Seq<char>)
    requires
        !schema.contains('.'),
    ensures
        text::find_char(schema + seq!['.'] + table, '.') == schema.len(),
    decreases schema.len(),
{
    let key = schema + seq!['.'] + table;
    if schema.len() > 0 {
        assert(schema[0] != '.');
        assert forall|i: int| 0 <= i < schema.drop_first().len() implies schema.drop_first()[i]
            != '.' by {
            assert(schema[i + 1] != '.');
        }
        lemma_dot_after(schema.drop_first(), table);
        assert(key.drop_first() =~= schema.drop_first() + seq!['.'] + table);
    } else {
        assert(key[0] == '.');
    }
}

} // verus!
