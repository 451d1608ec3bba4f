//! Schema statements: which table a `CREATE`, `ALTER`, `DROP` or `TRUNCATE` is about.
use vstd::prelude::*;
use crate::identifier;
use crate::schema::CapturedDdl;
use crate::text;

verus! {

/// The schema of a table that a statement names without one.
pub const DEFAULT_SCHEMA: &'static str = "default";

/// The words of a statement: its runs of characters between white space.
pub open spec fn words(statement: Seq<char>) -> Seq<Seq<char>>
    decreases statement.len(),
{
    if statement.len() == 0 {
        Seq::empty()
    } else {
        let rest = statement.drop_last();
        let c = statement.last();
        let before = words(rest);
        if text::is_space(c) {
            before
        } else if rest.len() == 0 || text::is_space(rest.last()) {
            before.push(seq![c])
        } else {
            before.drop_last().push(before.last().push(c))
        }
    }
}

/// Whether a word, up to ASCII case, is the given one.
pub open spec fn is_word(word: Seq<char>, wanted: Seq<char>) -> bool {
    text::folded(word) == text::folded(wanted)
}

/// Whether a word belongs to an `IF [NOT] EXISTS` clause.
pub open spec fn is_clause_word(word: Seq<char>) -> bool {
    is_word(word, "if"@) || is_word(word, "not"@) || is_word(word, "exists"@)
}

/// The first place at or past another where no `IF [NOT] EXISTS` word stands.
pub open spec fn past_clause(all: Seq<Seq<char>>, from: int) -> int
    decreases all.len() - from,
{
    if 0 <= from < all.len() && is_clause_word(all[from]) {
        past_clause(all, from + 1)
    } else {
        from
    }
}

/// The first place of a bracket or a semicolon in a word, or its length.
pub open spec fn name_end(word: Seq<char>, from: int) -> int
    decreases word.len() - from,
{
    if 0 <= from < word.len() && word[from] != '(' && word[from] != ';' {
        name_end(word, from + 1)
    } else {
        from
    }
}

/// The table that a word names, what follows the name aside.
pub open spec fn named_table(word: Seq<char>) -> Option<(Option<Seq<char>>, Seq<char>)> {
    identifier::table_reference(word.take(name_end(word, 0)), '`')
}

/// The kind of a schema statement by its first word.
pub open spec fn statement_kind(word: Seq<char>) -> Option<Seq<char>> {
    if is_word(word, "create"@) {
        Some("CREATE_TABLE"@)
    } else if is_word(word, "alter"@) {
        Some("ALTER_TABLE"@)
    } else if is_word(word, "drop"@) {
        Some("DROP_TABLE"@)
    } else {
        None
    }
}

/// The kind, schema and table of a schema statement on a table.
pub open spec fn ddl_target(statement: Seq<char>) -> Option<(Seq<char>, Seq<char>, Seq<char>)> {
    let all = words(statement);
    if all.len() < 3 || !is_word(all[1], "table"@) {
        None
    } else {
        match statement_kind(all[0]) {
            Some(kind) => {
                let at = past_clause(all, 2);
                if at < all.len() {
                    match named_table(all[at]) {
                        Some((schema, table)) => Some(
                            (
                                kind,
                                match schema {
                                    Some(schema) => schema,
                                    None => DEFAULT_SCHEMA@,
                                },
                                table,
                            ),
                        ),
                        None => None,
                    }
                } else {
                    None
                }
            },
            None => None,
        }
    }
}

/// The table that a `TRUNCATE [TABLE]` statement is about.
pub open spec fn truncate_target(statement: Seq<char>) -> Option<(Option<Seq<char>>, Seq<char>)> {
    let all = words(statement);
    if all.len() < 2 || !is_word(all[0], "truncate"@) {
        None
    } else if is_word(all[1], "table"@) {
        if all.len() < 3 {
            None
        } else {
            named_table(all[2])
        }
    } else {
        named_table(all[1])
    }
}

fn split_words(statement: &str) -> (all: Vec<String>)
    ensures
        text::texts(all@) == words(statement@),
{
    let chars = text::to_chars(statement);
    let mut all: Vec<String> = Vec::new();
    let mut word = String::new();
    let mut open = false;
    let mut i: usize = 0;
    proof {
        assert(statement@.take(0) =~= Seq::<char>::empty());
        assert(text::texts(all@) =~= Seq::<Seq<char>>::empty());
    }
    while i < chars.len()
        invariant
            i <= chars@.len(),
            chars@ == statement@,
            open == (i > 0 && !text::is_space(statement@[i - 1])),
            open ==> words(statement@.take(i as int)) == text::texts(all@).push(word@),
            !open ==> words(statement@.take(i as int)) == text::texts(all@) && word@.len() == 0,
        decreases chars.len() - i,
    {
        let c = chars[i];
        let ghost prefix = statement@.take(i + 1);
        let ghost done = text::texts(all@);
        let ghost held = word@;
        proof {
            assert(prefix.drop_last() =~= statement@.take(i as int));
            assert(prefix.last() == c);
            if i > 0 {
                assert(statement@.take(i as int).last() == statement@[i - 1]);
            }
            assert(done.push(held).drop_last() =~= done);
        }
        if text::is_white(c) {
            if open {
                all.push(word);
                word = String::new();
                proof {
                    assert(text::texts(all@) =~= done.push(held));
                }
                open = false;
            }
        } else {
            word.push(c);
            proof {
                if !open {
                    assert(held.push(c) =~= seq![c]);
                }
            }
            open = true;
        }
        i = i + 1;
    }
    proof {
        assert(statement@.take(i as int) =~= statement@);
    }
    let ghost done = text::texts(all@);
    let ghost held = word@;
    if open {
        all.push(word);
        proof {
            assert(text::texts(all@) =~= done.push(held));
        }
    }
    all
}

fn past(all: &Vec<String>, from: usize) -> (at: usize)
    requires
        from <= all@.len(),
    ensures
        at as int == past_clause(text::texts(all@), from as int),
        at <= all@.len(),
{
    let ghost views = text::texts(all@);
    let mut at: usize = from;
    while at < all.len() && (text::same_folded(all[at].as_str(), "if") || text::same_folded(
        all[at].as_str(),
        "not",
    ) || text::same_folded(all[at].as_str(), "exists"))
        invariant
            from <= at <= all@.len(),
            views == text::texts(all@),
            past_clause(views, from as int) == past_clause(views, at as int),
        decreases all.len() - at,
    {
        proof {
            assert(views[at as int] == all@[at as int]@);
        }
        at = at + 1;
    }
    proof {
        if at < all@.len() {
            assert(views[at as int] == all@[at as int]@);
        }
    }
    at
}

fn read_name(word: &str) -> (found: Option<(Option<String>, String)>)
    ensures
        match found {
            Some((schema, table)) => named_table(word@) == Some(
                (text::text_option(schema), table@),
            ),
            None => named_table(word@) is None,
        },
{
    let chars = text::to_chars(word);
    let mut end: usize = 0;
    while end < chars.len() && chars[end] != '(' && chars[end] != ';'
        invariant
            end <= chars@.len(),
            chars@ == word@,
            name_end(word@, 0) == name_end(word@, end as int),
        decreases chars.len() - end,
    {
        end = end + 1;
    }
    proof {
        assert(word@.take(end as int) =~= word@.subrange(0, end as int));
    }
    let name = text::from_chars(&chars, 0, end);
    identifier::read_reference(name.as_str(), '`')
}

/// The schema statement on a table that a statement is, `None` where it is something else. Its
/// time is left to the caller.
pub fn extract_captured_ddl(statement: &str) -> (found: Option<CapturedDdl>)
    ensures
        match found {
            Some(ddl) => ddl_target(statement@) == Some((ddl.ddl_type@, ddl.schema@, ddl.table@))
                && ddl.statement@ == statement@ && ddl.result_schema is None && ddl.ts == 0,
            None => ddl_target(statement@) is None,
        },
{
    let all = split_words(statement);
    let ghost views = text::texts(all@);
    proof {
        assert(views.len() == all@.len());
    }
    if all.len() < 3 {
        return None;
    }
    proof {
        assert(views[0] == all@[0]@);
        assert(views[1] == all@[1]@);
    }
    if !text::same_folded(all[1].as_str(), "table") {
        return None;
    }
    let first = all[0].as_str();
    let kind = if text::same_folded(first, "create") {
        "CREATE_TABLE"
    } else if text::same_folded(first, "alter") {
        "ALTER_TABLE"
    } else if text::same_folded(first, "drop") {
        "DROP_TABLE"
    } else {
        return None;
    };
    let at = past(&all, 2);
    if at >= all.len() {
        return None;
    }
    proof {
        assert(views[at as int] == all@[at as int]@);
    }
    match read_name(all[at].as_str()) {
        Some((schema, table)) => Some(
            CapturedDdl {
                ddl_type: kind.to_owned(),
                schema: match schema {
                    Some(schema) => schema,
                    None => DEFAULT_SCHEMA.to_owned(),
                },
                table,
                statement: statement.to_owned(),
                result_schema: None,
                ts: 0,
            },
        ),
        None => None,
    }
}

/// The table that a `TRUNCATE [TABLE]` statement is about.
pub fn parse_truncate_target(statement: &str) -> (found: Option<(Option<String>, String)>)
    ensures
        match found {
            Some((schema, table)) => truncate_target(statement@) == Some(
                (text::text_option(schema), table@),
            ),
            None => truncate_target(statement@) is None,
        },
{
    let all = split_words(statement);
    let ghost views = text::texts(all@);
    proof {
        assert(views.len() == all@.len());
    }
    if all.len() < 2 {
        return None;
    }
    proof {
        assert(views[0] == all@[0]@);
        assert(views[1] == all@[1]@);
    }
    if !text::same_folded(all[0].as_str(), "truncate") {
        return None;
    }
    if text::same_folded(all[1].as_str(), "table") {
        if all.len() < 3 {
            return None;
        }
        proof {
            assert(views[2] == all@[2]@);
        }
        read_name(all[2].as_str())
    } else {
        read_name(all[1].as_str())
    }
}

} // verus!
