//! What statements and table references name: every way of writing a table's name gives back the
//! table.
use vstd::prelude::*;
use crate::ddl;
use crate::identifier;
use crate::mysql::parser as mysql_parser;
use crate::postgres::parser as postgres_parser;
use crate::text;

verus! {

// References

/// Whether a name can stand without quotes: it holds ASCII letters, digits, `_` and `$` only.
pub open spec fn needs_no_quotes(name: Seq<char>) -> bool {
    &&& name.len() > 0
    &&& forall|i: int|
        0 <= i < name.len() ==> ('a' <= #[trigger] name[i] <= 'z' || 'A' <= name[i] <= 'Z' || '0'
            <= name[i] <= '9' || name[i] == '_' || name[i] == '$')
}

proof fn lemma_bare_run(s: Seq<char>, from: int, end: int)
    requires
        0 <= from <= end <= s.len(),
        needs_no_quotes(s.subrange(from, end)) || from == end,
        end == s.len() || s[end] == '.',
    ensures
        identifier::bare_end(s, from) == end,
    decreases end - from,
{
    if from < end {
        assert(s.subrange(from, end)[0] == s[from]);
        if from + 1 < end {
            assert forall|i: int| 0 <= i < s.subrange(from + 1, end).len() implies ('a'
                <= #[trigger] s.subrange(from + 1, end)[i] <= 'z' || 'A' <= s.subrange(
                from + 1,
                end,
            )[i] <= 'Z' || '0' <= s.subrange(from + 1, end)[i] <= '9' || s.subrange(
                from + 1,
                end,
            )[i] == '_' || s.subrange(from + 1, end)[i] == '$') by {
                assert(s.subrange(from, end)[i + 1] == s.subrange(from + 1, end)[i]);
            }
        }
        lemma_bare_run(s, from + 1, end);
    }
}

proof fn lemma_quoted_run(s: Seq<char>, at: int, name: Seq<char>, quote: char, rest: Seq<char>)
    requires
        1 <= at <= s.len(),
        s.skip(at) == identifier::doubled(name, quote) + seq![quote] + rest,
        rest.len() == 0 || rest[0] != quote,
    ensures
        identifier::quoted_rest(s, at, quote) == Some((name, s.len() - rest.len())),
    decreases name.len(),
{
    let tail = s.skip(at);
    if name.len() == 0 {
        assert(tail =~= seq![quote] + rest);
        assert(s[at] == tail[0]);
        assert(tail.len() == 1 + rest.len());
        if rest.len() > 0 {
            assert(s[at + 1] == tail[1]);
        }
        assert(name =~= Seq::<char>::empty());
    } else {
        let less = identifier::doubled(name.drop_first(), quote) + seq![quote] + rest;
        if name[0] == quote {
            assert(tail =~= seq![quote, quote] + less);
            assert(s[at] == tail[0] && s[at + 1] == tail[1]);
            assert(s.skip(at + 2) =~= tail.skip(2));
            assert(tail.skip(2) =~= less);
            lemma_quoted_run(s, at + 2, name.drop_first(), quote, rest);
            assert(seq![quote] + name.drop_first() =~= name);
        } else {
            assert(tail =~= seq![name[0]] + less);
            assert(s[at] == tail[0]);
            assert(s.skip(at + 1) =~= tail.skip(1));
            assert(tail.skip(1) =~= less);
            lemma_quoted_run(s, at + 1, name.drop_first(), quote, rest);
            assert(seq![s[at]] + name.drop_first() =~= name);
        }
    }
}

/// A way of writing a name: in quotes, or as it is where it needs none.
pub open spec fn written(name: Seq<char>, in_quotes: bool, quote: char) -> Seq<char> {
    if in_quotes {
        identifier::quoted(name, quote)
    } else {
        name
    }
}

/// Whether a character can be a quote: it is no part of a bare name, no dot and no white space.
pub open spec fn is_quote(quote: char) -> bool {
    quote == '`' || quote == '"'
}

proof fn lemma_written_at(
    s: Seq<char>,
    from: int,
    name: Seq<char>,
    in_quotes: bool,
    quote: char,
    rest: Seq<char>,
)
    requires
        is_quote(quote),
        name.len() > 0,
        !in_quotes ==> needs_no_quotes(name),
        0 <= from <= s.len(),
        s.skip(from) == written(name, in_quotes, quote) + rest,
        rest.len() == 0 || rest[0] == '.',
    ensures
        identifier::identifier_at(s, from, quote) == Some((name, s.len() - rest.len())),
{
    let tail = s.skip(from);
    let shown = written(name, in_quotes, quote);
    assert(shown.len() > 0);
    assert(tail.len() == shown.len() + rest.len());
    assert(s[from] == tail[0]);
    if in_quotes {
        assert(tail[0] == quote);
        assert(s.skip(from + 1) =~= tail.skip(1));
        assert(tail.skip(1) =~= identifier::doubled(name, quote) + seq![quote] + rest);
        lemma_quoted_run(s, from + 1, name, quote, rest);
    } else {
        let end = from + name.len();
        assert(s.subrange(from, end) =~= name) by {
            assert forall|i: int| 0 <= i < name.len() implies s[from + i] == name[i] by {
                assert(tail[i] == s[from + i]);
            }
        }
        if rest.len() > 0 {
            assert(tail[name.len() as int] == rest[0]);
            assert(s[end] == tail[name.len() as int]);
        }
        lemma_bare_run(s, from, end);
        assert(name[0] != quote);
        assert(tail[0] == name[0]);
    }
}

proof fn lemma_written_ends(name: Seq<char>, in_quotes: bool, quote: char)
    requires
        is_quote(quote),
        name.len() > 0,
        !in_quotes ==> needs_no_quotes(name),
    ensures
        written(name, in_quotes, quote).len() > 0,
        !text::is_space(written(name, in_quotes, quote)[0]),
        !text::is_space(written(name, in_quotes, quote).last()),
{
    let s = written(name, in_quotes, quote);
    if in_quotes {
        assert(s[0] == quote);
        assert(s.last() == quote);
    } else {
        assert(s[0] == name[0]);
        assert(s.last() == name[name.len() - 1]);
    }
}

/// A reference to a table gives back the table and, where it names one, the schema, whichever of
/// the two stand in quotes and whatever characters the quoted ones hold.
pub proof fn reference_gives_back_its_table(
    schema: Seq<char>,
    schema_quoted: bool,
    table: Seq<char>,
    table_quoted: bool,
    quote: char,
)
    requires
        is_quote(quote),
        schema.len() > 0,
        table.len() > 0,
        !schema_quoted ==> needs_no_quotes(schema),
        !table_quoted ==> needs_no_quotes(table),
    ensures
        identifier::table_reference(written(table, table_quoted, quote), quote) == Some(
            (None::<Seq<char>>, table),
        ),
        identifier::table_reference(
            written(schema, schema_quoted, quote) + "."@ + written(table, table_quoted, quote),
            quote,
        ) == Some((Some(schema), table)),
{
    reveal_strlit(".");
    lemma_written_ends(schema, schema_quoted, quote);
    lemma_written_ends(table, table_quoted, quote);
    let bare = written(table, table_quoted, quote);
    text::trimmed_is_itself(bare);
    assert(bare.skip(0) =~= bare + Seq::<char>::empty());
    lemma_written_at(bare, 0, table, table_quoted, quote, Seq::empty());
    let head = written(schema, schema_quoted, quote);
    let whole = head + "."@ + bare;
    assert(whole[0] == head[0]);
    assert(whole.last() == bare.last());
    text::trimmed_is_itself(whole);
    assert(whole.skip(0) =~= head + ("."@ + bare));
    lemma_written_at(whole, 0, schema, schema_quoted, quote, "."@ + bare);
    let dot = head.len() as int;
    assert(whole.len() - ("."@ + bare).len() == dot);
    assert(whole[dot] == '.');
    assert(whole.skip(dot + 1) =~= bare + Seq::<char>::empty());
    lemma_written_at(whole, dot + 1, table, table_quoted, quote, Seq::empty());
}

/// What is written into a statement for a table reads back as that table, in MySQL's quotes and in
/// PostgreSQL's. A PostgreSQL table that is named without a schema is of `public`.
pub proof fn written_names_read_back(schema: Seq<char>, table: Seq<char>)
    requires
        schema.len() > 0,
        table.len() > 0,
    ensures
        identifier::table_reference(mysql_parser::qualified_name(Some(schema), table), '`')
            == Some((Some(schema), table)),
        identifier::table_reference(mysql_parser::qualified_name(None, table), '`') == Some(
            (None::<Seq<char>>, table),
        ),
        postgres_parser::table_named(postgres_parser::qualified_name(schema, table)) == Some(
            (schema, table),
        ),
        postgres_parser::table_named(identifier::quoted(table, '"')) == Some(("public"@, table)),
        needs_no_quotes(table) ==> postgres_parser::table_named(table) == Some(
            ("public"@, table),
        ),
        needs_no_quotes(schema) && needs_no_quotes(table) ==> postgres_parser::table_named(
            schema + "."@ + table,
        ) == Some((schema, table)),
{
    reference_gives_back_its_table(schema, true, table, true, '`');
    reference_gives_back_its_table(schema, true, table, true, '"');
    if needs_no_quotes(table) {
        reference_gives_back_its_table(schema, true, table, false, '"');
        if needs_no_quotes(schema) {
            reference_gives_back_its_table(schema, false, table, false, '"');
        }
    }
}

/// A reference of three parts names no table, and an empty one does not either.
pub proof fn reference_has_one_or_two_parts(
    first: Seq<char>,
    second: Seq<char>,
    third: Seq<char>,
    quote: char,
)
    requires
        is_quote(quote),
        needs_no_quotes(first),
        needs_no_quotes(second),
        needs_no_quotes(third),
    ensures
        identifier::table_reference(first + "."@ + second + "."@ + third, quote) is None,
        identifier::table_reference(Seq::empty(), quote) is None,
        identifier::table_reference(first + "."@, quote) is None,
{
    reveal_strlit(".");
    let whole = first + "."@ + second + "."@ + third;
    lemma_written_ends(first, false, quote);
    lemma_written_ends(third, false, quote);
    assert(whole[0] == first[0]);
    assert(whole.last() == third.last());
    text::trimmed_is_itself(whole);
    let rest = "."@ + second + "."@ + third;
    assert(whole.skip(0) =~= first + rest);
    lemma_written_at(whole, 0, first, false, quote, rest);
    let dot = first.len() as int;
    assert(whole[dot] == '.');
    assert(whole.skip(dot + 1) =~= second + ("."@ + third));
    lemma_written_at(whole, dot + 1, second, false, quote, "."@ + third);
    let open = first + "."@;
    assert(open[0] == first[0]);
    assert(open.last() == '.');
    text::trimmed_is_itself(open);
    assert(open.skip(0) =~= first + "."@);
    lemma_written_at(open, 0, first, false, quote, "."@);
}

// Words

/// Whether a text is a word: not empty, and without white space.
pub open spec fn is_one_word(word: Seq<char>) -> bool {
    word.len() > 0 && forall|i: int| 0 <= i < word.len() ==> !text::is_space(#[trigger] word[i])
}

/// White space parts words, however much of it there is: a word behind white space is the last of
/// a statement's words, and white space at the end adds none.
pub proof fn white_space_parts_words(before: Seq<char>, gap: char, word: Seq<char>)
    requires
        text::is_space(gap),
        is_one_word(word),
    ensures
        ddl::words(Seq::empty()) == Seq::<Seq<char>>::empty(),
        ddl::words(word) == seq![word],
        ddl::words(before.push(gap)) == ddl::words(before),
        ddl::words(before.push(gap) + word) == ddl::words(before).push(word),
    decreases word.len(),
{
    reveal_with_fuel(ddl::words, 3);
    let whole = before.push(gap) + word;
    let less = word.drop_last();
    let c = word.last();
    assert(before.push(gap).drop_last() =~= before);
    assert(word[word.len() - 1] == c);
    if word.len() == 1 {
        assert(less =~= Seq::<char>::empty());
        assert(whole.drop_last() =~= before.push(gap));
        assert(word =~= seq![c]);
        assert(whole.last() == c);
        assert(before.push(gap).last() == gap);
        assert(ddl::words(less) =~= Seq::<Seq<char>>::empty());
        assert(ddl::words(word) =~= seq![word]);
    } else {
        assert forall|i: int| 0 <= i < less.len() implies !text::is_space(#[trigger] less[i]) by {
            assert(word[i] == less[i]);
        }
        white_space_parts_words(before, gap, less);
        assert(whole.drop_last() =~= before.push(gap) + less);
        assert(whole.drop_last().last() == less.last());
        assert(less.last() == word[word.len() - 2]);
        assert(less.push(c) =~= word);
        let parts = ddl::words(before).push(less);
        assert(parts.drop_last() =~= ddl::words(before));
        assert(seq![less].drop_last() =~= Seq::<Seq<char>>::empty());
        assert(ddl::words(word) =~= seq![word]);
    }
}

// Statements

/// Whether a word is one of those of an `IF [NOT] EXISTS` clause, in whatever case.
pub open spec fn is_of_the_clause(word: Seq<char>) -> bool {
    text::folded(word) == "if"@ || text::folded(word) == "not"@ || text::folded(word) == "exists"@
}

/// Whether a word starts with a reference to a table and goes on, if it does, with a bracket or a
/// semicolon.
pub open spec fn starts_with_reference(word: Seq<char>, reference: Seq<char>) -> bool {
    &&& reference.len() <= word.len()
    &&& word.take(reference.len() as int) == reference
    &&& forall|i: int|
        0 <= i < reference.len() ==> #[trigger] reference[i] != '(' && reference[i] != ';'
    &&& reference.len() < word.len() ==> (word[reference.len() as int] == '('
        || word[reference.len() as int] == ';')
}

proof fn lemma_name_end(word: Seq<char>, reference: Seq<char>, from: int)
    requires
        starts_with_reference(word, reference),
        0 <= from <= reference.len(),
    ensures
        ddl::name_end(word, from) == reference.len(),
    decreases reference.len() - from,
{
    if from < reference.len() {
        assert(word.take(reference.len() as int)[from] == word[from]);
        assert(reference[from] == word[from]);
        lemma_name_end(word, reference, from + 1);
    }
}

proof fn lemma_past_clause(all: Seq<Seq<char>>, from: int, at: int)
    requires
        0 <= from <= at < all.len(),
        forall|i: int| from <= i < at ==> is_of_the_clause(#[trigger] all[i]),
        !is_of_the_clause(all[at]),
    ensures
        ddl::past_clause(all, from) == at,
    decreases at - from,
{
    lemma_folded_literals();
    if from < at {
        assert(is_of_the_clause(all[from]));
        lemma_past_clause(all, from + 1, at);
    }
}

proof fn lemma_folded_literals()
    ensures
        text::folded("if"@) == "if"@,
        text::folded("not"@) == "not"@,
        text::folded("exists"@) == "exists"@,
        text::folded("table"@) == "table"@,
        text::folded("create"@) == "create"@,
        text::folded("alter"@) == "alter"@,
        text::folded("drop"@) == "drop"@,
        text::folded("truncate"@) == "truncate"@,
{
    reveal_strlit("if");
    reveal_strlit("not");
    reveal_strlit("exists");
    reveal_strlit("table");
    reveal_strlit("create");
    reveal_strlit("alter");
    reveal_strlit("drop");
    reveal_strlit("truncate");
    assert(text::folded("if"@) =~= "if"@);
    assert(text::folded("not"@) =~= "not"@);
    assert(text::folded("exists"@) =~= "exists"@);
    assert(text::folded("table"@) =~= "table"@);
    assert(text::folded("create"@) =~= "create"@);
    assert(text::folded("alter"@) =~= "alter"@);
    assert(text::folded("drop"@) =~= "drop"@);
    assert(text::folded("truncate"@) =~= "truncate"@);
}

/// A `CREATE`, `ALTER` or `DROP` of a table is told as such, and names the table that stands behind
/// `TABLE` and the clause that may follow it, with the schema `default` where the statement gives
/// none. Keywords count in whatever case.
pub proof fn schema_statement_names_its_table(
    statement: Seq<char>,
    at: int,
    reference: Seq<char>,
    schema: Option<Seq<char>>,
    table: Seq<char>,
)
    requires
        2 <= at < ddl::words(statement).len(),
        text::folded(ddl::words(statement)[1]) == "table"@,
        forall|i: int| 2 <= i < at ==> is_of_the_clause(#[trigger] ddl::words(statement)[i]),
        !is_of_the_clause(ddl::words(statement)[at]),
        starts_with_reference(ddl::words(statement)[at], reference),
        identifier::table_reference(reference, '`') == Some((schema, table)),
    ensures
        ({
            let verb = text::folded(ddl::words(statement)[0]);
            let named = match schema {
                Some(schema) => schema,
                None => "default"@,
            };
            let told = ddl::ddl_target(statement);
            &&& verb == "create"@ ==> told == Some(("CREATE_TABLE"@, named, table))
            &&& verb == "alter"@ ==> told == Some(("ALTER_TABLE"@, named, table))
            &&& verb == "drop"@ ==> told == Some(("DROP_TABLE"@, named, table))
            &&& verb != "create"@ && verb != "alter"@ && verb != "drop"@ ==> told is None
        }),
{
    let all = ddl::words(statement);
    lemma_folded_literals();
    lemma_past_clause(all, 2, at);
    lemma_name_end(all[at], reference, 0);
    reveal_strlit("create");
    reveal_strlit("alter");
    reveal_strlit("drop");
    assert("create"@.len() == 6 && "alter"@.len() == 5 && "drop"@.len() == 4);
}

/// What is no `CREATE TABLE`, `ALTER TABLE` or `DROP TABLE` is no schema statement on a table.
pub proof fn other_statements_are_no_schema_statements(statement: Seq<char>)
    requires
        ({
            let all = ddl::words(statement);
            ||| all.len() < 3
            ||| text::folded(all[1]) != "table"@
            ||| (text::folded(all[0]) != "create"@ && text::folded(all[0]) != "alter"@
                && text::folded(all[0]) != "drop"@)
        }),
    ensures
        ddl::ddl_target(statement) is None,
{
    lemma_folded_literals();
}

/// A `TRUNCATE`, with or without `TABLE`, names the table that stands behind it; nothing else is a
/// truncation.
pub proof fn truncation_names_its_table(
    statement: Seq<char>,
    with_table: bool,
    reference: Seq<char>,
    schema: Option<Seq<char>>,
    table: Seq<char>,
)
    requires
        ddl::words(statement).len() >= 2,
        with_table == (text::folded(ddl::words(statement)[1]) == "table"@),
        with_table ==> ddl::words(statement).len() >= 3,
        starts_with_reference(
            ddl::words(statement)[if with_table {
                2int
            } else {
                1
            }],
            reference,
        ),
        identifier::table_reference(reference, '`') == Some((schema, table)),
    ensures
        text::folded(ddl::words(statement)[0]) == "truncate"@ ==> ddl::truncate_target(statement)
            == Some((schema, table)),
        text::folded(ddl::words(statement)[0]) != "truncate"@ ==> ddl::truncate_target(
            statement,
        ) is None,
{
    let all = ddl::words(statement);
    let place: int = if with_table {
        2
    } else {
        1
    };
    lemma_folded_literals();
    lemma_name_end(all[place], reference, 0);
}

/// A schema statement is no truncation, and a truncation no schema statement.
pub proof fn truncations_and_schema_statements_differ(statement: Seq<char>)
    ensures
        ddl::ddl_target(statement) is None || ddl::truncate_target(statement) is None,
{
    lemma_folded_literals();
    reveal_strlit("create");
    reveal_strlit("alter");
    reveal_strlit("drop");
    reveal_strlit("truncate");
    assert("create"@.len() == 6 && "alter"@.len() == 5 && "drop"@.len() == 4
        && "truncate"@.len() == 8);
}

} // verus!
