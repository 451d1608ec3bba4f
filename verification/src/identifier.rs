//! SQL identifiers: quoting, and reading `schema.table` references.
use vstd::prelude::*;
use crate::text;

verus! {

/// The characters of an identifier that needs no quotes.
pub open spec fn is_bare(c: char) -> bool {
    ||| 'a' <= c <= 'z'
    ||| 'A' <= c <= 'Z'
    ||| '0' <= c <= '9'
    ||| c == '_'
    ||| c == '$'
}

/// The end of the run of bare characters that starts at a place.
pub open spec fn bare_end(s: Seq<char>, from: int) -> int
    decreases s.len() - from,
{
    if 0 <= from < s.len() && is_bare(s[from]) {
        bare_end(s, from + 1)
    } else {
        from
    }
}

/// The rest of a quoted identifier and the place behind its closing quote; a doubled quote
/// stands for one.
pub open spec fn quoted_rest(s: Seq<char>, at: int, quote: char) -> Option<(Seq<char>, int)>
    decreases s.len() - at,
{
    if at < 0 || at >= s.len() {
        None
    } else if s[at] == quote {
        if at + 1 < s.len() && s[at + 1] == quote {
            match quoted_rest(s, at + 2, quote) {
                Some((rest, end)) => Some((seq![quote] + rest, end)),
                None => None,
            }
        } else {
            Some((Seq::empty(), at + 1))
        }
    } else {
        match quoted_rest(s, at + 1, quote) {
            Some((rest, end)) => Some((seq![s[at]] + rest, end)),
            None => None,
        }
    }
}

/// The identifier that starts at a place, quoted or bare, and the place behind it.
pub open spec fn identifier_at(s: Seq<char>, from: int, quote: char) -> Option<(Seq<char>, int)> {
    if 0 <= from < s.len() && s[from] == quote {
        match quoted_rest(s, from + 1, quote) {
            Some((name, end)) => if name.len() > 0 {
                Some((name, end))
            } else {
                None
            },
            None => None,
        }
    } else if bare_end(s, from) > from {
        Some((s.subrange(from, bare_end(s, from)), bare_end(s, from)))
    } else {
        None
    }
}

/// The table that a reference names, `table` or `schema.table`, white space around it aside.
pub open spec fn table_reference(reference: Seq<char>, quote: char) -> Option<
    (Option<Seq<char>>, Seq<char>),
> {
    let s = text::trimmed(reference);
    match identifier_at(s, 0, quote) {
        Some((first, end)) => if end == s.len() {
            Some((None, first))
        } else if s[end] == '.' {
            match identifier_at(s, end + 1, quote) {
                Some((second, last)) => if last == s.len() {
                    Some((Some(first), second))
                } else {
                    None
                },
                None => None,
            }
        } else {
            None
        },
        None => None,
    }
}

/// A name with every quote doubled.
pub open spec fn doubled(name: Seq<char>, quote: char) -> Seq<char>
    decreases name.len(),
{
    if name.len() == 0 {
        Seq::empty()
    } else if name[0] == quote {
        seq![quote, quote] + doubled(name.drop_first(), quote)
    } else {
        seq![name[0]] + doubled(name.drop_first(), quote)
    }
}

/// A name in quotes.
pub open spec fn quoted(name: Seq<char>, quote: char) -> Seq<char> {
    seq![quote] + doubled(name, quote) + seq![quote]
}

fn bare(c: char) -> (b: bool)
    ensures
        b == is_bare(c),
{
    ('a' <= c && c <= 'z') || ('A' <= c && c <= 'Z') || ('0' <= c && c <= '9') || c == '_' || c
        == '$'
}

fn read_identifier(s: &Vec<char>, from: usize, quote: char) -> (found: Option<(String, usize)>)
    requires
        from <= s@.len(),
    ensures
        match found {
            Some((name, end)) => identifier_at(s@, from as int, quote) == Some((name@, end as int))
                && from < end <= s@.len(),
            None => identifier_at(s@, from as int, quote) is None,
        },
{
    if from < s.len() && s[from] == quote {
        let mut name = String::new();
        let mut at: usize = from + 1;
        let mut size: usize = 0;
        proof {
            match quoted_rest(s@, at as int, quote) {
                Some((rest, end)) => {
                    assert(name@ + rest =~= rest);
                },
                None => {},
            }
        }
        while at < s.len()
            invariant
                from < at <= s@.len(),
                s@[from as int] == quote,
                size as nat == name@.len(),
                size <= at,
                match (quoted_rest(s@, from + 1, quote), quoted_rest(s@, at as int, quote)) {
                    (Some((whole, end)), Some((rest, rest_end))) => whole == name@ + rest && end
                        == rest_end,
                    (None, None) => true,
                    _ => false,
                },
            decreases s.len() - at,
        {
            let ghost before = name@;
            let c = s[at];
            if c == quote {
                if at + 1 < s.len() && s[at + 1] == quote {
                    name.push(quote);
                    proof {
                        match quoted_rest(s@, at + 2, quote) {
                            Some((rest, end)) => {
                                assert(before + (seq![quote] + rest) =~= name@ + rest);
                            },
                            None => {},
                        }
                    }
                    size = size + 1;
                    at = at + 2;
                } else {
                    proof {
                        assert(before + Seq::<char>::empty() =~= before);
                    }
                    if size > 0 {
                        return Some((name, at + 1));
                    }
                    return None;
                }
            } else {
                name.push(c);
                proof {
                    match quoted_rest(s@, at + 1, quote) {
                        Some((rest, end)) => {
                            assert(before + (seq![c] + rest) =~= name@ + rest);
                        },
                        None => {},
                    }
                }
                size = size + 1;
                at = at + 1;
            }
        }
        return None;
    }
    let mut end: usize = from;
    while end < s.len() && bare(s[end])
        invariant
            from <= end <= s@.len(),
            bare_end(s@, from as int) == bare_end(s@, end as int),
        decreases s.len() - end,
    {
        end = end + 1;
    }
    if end > from {
        Some((text::from_chars(s, from, end), end))
    } else {
        None
    }
}

/// The table that a reference names; `None` where it is not `table` or `schema.table`.
pub fn read_reference(reference: &str, quote: char) -> (found: Option<(Option<String>, String)>)
    ensures
        match found {
            Some((schema, table)) => table_reference(reference@, quote) == Some(
                (text::text_option(schema), table@),
            ),
            None => table_reference(reference@, quote) is None,
        },
{
    let trimmed = text::trim(reference);
    let s = text::to_chars(trimmed.as_str());
    match read_identifier(&s, 0, quote) {
        Some((first, end)) => {
            if end == s.len() {
                Some((None, first))
            } else if s[end] == '.' {
                match read_identifier(&s, end + 1, quote) {
                    Some((second, last)) => {
                        if last == s.len() {
                            Some((Some(first), second))
                        } else {
                            None
                        }
                    },
                    None => None,
                }
            } else {
                None
            }
        },
        None => None,
    }
}

/// A name in quotes.
pub fn quote_identifier(name: &str, quote: char) -> (out: String)
    ensures
        out@ == quoted(name@, quote),
{
    let chars = text::to_chars(name);
    let mut out = String::new();
    out.push(quote);
    let ghost lead = out@;
    let mut i: usize = 0;
    proof {
        assert(name@.skip(0) =~= name@);
        assert(lead =~= seq![quote]);
    }
    while i < chars.len()
        invariant
            i <= chars@.len(),
            chars@ == name@,
            lead + doubled(name@, quote) == out@ + doubled(name@.skip(i as int), quote),
        decreases chars.len() - i,
    {
        let ghost before = out@;
        let ghost rest = name@.skip(i as int);
        let c = chars[i];
        if c == quote {
            out.push(quote);
        }
        out.push(c);
        proof {
            assert(rest[0] == c);
            assert(rest.drop_first() =~= name@.skip(i + 1));
            assert(before + doubled(rest, quote) =~= out@ + doubled(name@.skip(i + 1), quote));
        }
        i = i + 1;
    }
    proof {
        assert(name@.skip(i as int) =~= Seq::<char>::empty());
        assert(lead + doubled(name@, quote) =~= out@);
    }
    out.push(quote);
    proof {
        assert(out@ =~= quoted(name@, quote));
    }
    out
}

/// A quoted name reads back as the name, whatever characters it holds.
pub proof fn quoted_name_reads_back(name: Seq<char>, quote: char)
    requires
        name.len() > 0,
    ensures
        identifier_at(quoted(name, quote), 0, quote) == Some(
            (name, quoted(name, quote).len() as int),
        ),
{
    let s = quoted(name, quote);
    assert(s.skip(1) =~= doubled(name, quote) + seq![quote]);
    lemma_doubled_reads_back(s, 1, name, quote);
}

proof fn lemma_doubled_reads_back(s: Seq<char>, at: int, name: Seq<char>, quote: char)
    requires
        1 <= at <= s.len(),
        s.skip(at) == doubled(name, quote) + seq![quote],
    ensures
        quoted_rest(s, at, quote) == Some((name, s.len() as int)),
    decreases name.len(),
{
    let rest = s.skip(at);
    if name.len() == 0 {
        assert(rest =~= seq![quote]);
        assert(rest.len() == 1);
        assert(s[at] == rest[0]);
        assert(name =~= Seq::<char>::empty());
    } else {
        let tail = doubled(name.drop_first(), quote) + seq![quote];
        if name[0] == quote {
            assert(rest =~= seq![quote, quote] + tail);
            assert(s[at] == rest[0] && s[at + 1] == rest[1]);
            assert(s.skip(at + 2) =~= rest.skip(2));
            assert(rest.skip(2) =~= tail);
            lemma_doubled_reads_back(s, at + 2, name.drop_first(), quote);
            assert(seq![quote] + name.drop_first() =~= name);
        } else {
            assert(rest =~= seq![name[0]] + tail);
            assert(s[at] == rest[0]);
            assert(s.skip(at + 1) =~= rest.skip(1));
            assert(rest.skip(1) =~= tail);
            lemma_doubled_reads_back(s, at + 1, name.drop_first(), quote);
            assert(seq![name[0]] + name.drop_first() =~= name);
        }
    }
}

} // verus!
