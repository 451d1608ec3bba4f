//! Reading a table in key order, chunk after chunk: what such a read means, and that reads forward
//! from cursor to cursor give every row once.
//!
//! A key is the list of its columns' values, each by its place in the order of its column's type.
use vstd::prelude::*;
use crate::text;

verus! {

/// The way in which a column orders rows.
pub enum Direction {
    Ascending,
    Descending,
}

/// How the key of a row is compared with a cursor, column by column.
pub enum Comparison {
    Greater,
    GreaterOrEqual,
    Less,
    LessOrEqual,
    Equal,
    NotEqual,
}

/// A read of a table: which rows it takes, by how their keys compare with a cursor, and the order
/// in which it gives them. The limit comes with each use.
pub struct KeysetRead {
    pub past: Option<Comparison>,
    /// The way of each key column.
    pub order: Seq<Direction>,
}

/// The read of the rows past a cursor, where there is one, in ascending key order.
pub open spec fn forward(width: nat, past_cursor: bool) -> KeysetRead {
    KeysetRead {
        past: if past_cursor {
            Some(Comparison::Greater)
        } else {
            None
        },
        order: Seq::new(width, |i: int| Direction::Ascending),
    }
}

// SQL

/// How SQL writes a comparison.
pub open spec fn comparison_text(comparison: Comparison) -> Seq<char> {
    match comparison {
        Comparison::Greater => ">"@,
        Comparison::GreaterOrEqual => ">="@,
        Comparison::Less => "<"@,
        Comparison::LessOrEqual => "<="@,
        Comparison::Equal => "="@,
        Comparison::NotEqual => "<>"@,
    }
}

/// What SQL writes behind a column of an order: nothing where it ascends.
pub open spec fn direction_text(direction: Direction) -> Seq<char> {
    match direction {
        Direction::Ascending => Seq::empty(),
        Direction::Descending => " DESC"@,
    }
}

/// Columns as an order lists them.
pub open spec fn ordered_columns(columns: Seq<Seq<char>>, order: Seq<Direction>) -> Seq<Seq<char>> {
    Seq::new(columns.len(), |i: int| columns[i] + direction_text(order[i]))
}

/// How many columns of an order descend.
pub open spec fn descents(order: Seq<Direction>) -> nat
    decreases order.len(),
{
    if order.len() == 0 {
        0
    } else {
        descents(order.drop_last()) + (if order.last() is Descending {
            1nat
        } else {
            0nat
        })
    }
}

/// A list of columns is as long as the columns, and longer by each descent.
pub proof fn order_lengths(columns: Seq<Seq<char>>, order: Seq<Direction>)
    requires
        order.len() == columns.len(),
    ensures
        text::joined(ordered_columns(columns, order), ", "@).len() == text::joined(
            columns,
            ", "@,
        ).len() + 5 * descents(order),
    decreases columns.len(),
{
    reveal_strlit(" DESC");
    let listed = ordered_columns(columns, order);
    if columns.len() > 0 {
        let fewer = columns.drop_last();
        order_lengths(fewer, order.drop_last());
        assert(listed.drop_last() =~= ordered_columns(fewer, order.drop_last()));
        if columns.len() == 1 {
            assert(order.drop_last() =~= Seq::<Direction>::empty());
            assert(text::joined(fewer, ", "@).len() == 0);
            assert(descents(order.drop_last()) == 0);
        }
    }
}

/// An order without descents ascends in every column.
pub proof fn no_descent_is_ascending(order: Seq<Direction>)
    requires
        descents(order) == 0,
    ensures
        order == forward(order.len(), false).order,
    decreases order.len(),
{
    if order.len() > 0 {
        no_descent_is_ascending(order.drop_last());
        let all = forward(order.len(), false).order;
        assert forall|i: int| 0 <= i < order.len() implies order[i] == #[trigger] all[i] by {
            if i < order.len() - 1 {
                assert(order.drop_last()[i] == forward(order.drop_last().len(), false).order[i]);
            }
        }
    }
    assert(order =~= forward(order.len(), false).order);
}

/// An ascending order lists the columns as they are.
pub proof fn ascending_columns_stand_alone(columns: Seq<Seq<char>>)
    ensures
        ordered_columns(columns, forward(columns.len(), false).order) == columns,
        ordered_columns(columns, forward(columns.len(), true).order) == columns,
{
    let order = forward(columns.len(), false).order;
    assert forall|i: int| 0 <= i < columns.len() implies ordered_columns(columns, order)[i]
        == #[trigger] columns[i] by {
        assert(columns[i] + Seq::<char>::empty() =~= columns[i]);
    }
    assert(ordered_columns(columns, order) =~= columns);
    assert(order =~= forward(columns.len(), true).order);
}

// Meaning

/// Whether a key comes before another in an order: the first column in which they differ decides.
pub open spec fn comes_before(order: Seq<Direction>, a: Seq<int>, b: Seq<int>) -> bool
    decreases order.len(),
{
    if order.len() == 0 {
        false
    } else if a[0] == b[0] {
        comes_before(order.drop_first(), a.drop_first(), b.drop_first())
    } else {
        match order[0] {
            Direction::Ascending => a[0] < b[0],
            Direction::Descending => a[0] > b[0],
        }
    }
}

/// Whether a key is less than another of as many columns.
pub open spec fn key_less(a: Seq<int>, b: Seq<int>) -> bool {
    comes_before(forward(a.len(), false).order, a, b)
}

/// Whether a read takes a key, with a cursor.
pub open spec fn takes(read: KeysetRead, cursor: Seq<int>, key: Seq<int>) -> bool {
    match read.past {
        None => true,
        Some(Comparison::Greater) => key_less(cursor, key),
        Some(Comparison::GreaterOrEqual) => !key_less(key, cursor),
        Some(Comparison::Less) => key_less(key, cursor),
        Some(Comparison::LessOrEqual) => !key_less(cursor, key),
        Some(Comparison::Equal) => key == cursor,
        Some(Comparison::NotEqual) => key != cursor,
    }
}

/// Whether a server may answer a read of a table with these rows: rows of the table that the read
/// takes, in its order, no more than the limit; a row that it takes is left out only where the
/// limit is reached, and comes after those that are given.
pub open spec fn answers(
    read: KeysetRead,
    table: Set<Seq<int>>,
    cursor: Seq<int>,
    limit: nat,
    rows: Seq<Seq<int>>,
) -> bool {
    &&& rows.len() <= limit
    &&& forall|i: int|
        0 <= i < rows.len() ==> table.contains(#[trigger] rows[i]) && takes(read, cursor, rows[i])
    &&& forall|i: int, j: int|
        0 <= i < j < rows.len() ==> comes_before(
            read.order,
            #[trigger] rows[i],
            #[trigger] rows[j],
        )
    &&& forall|key: Seq<int>| #[trigger]
        table.contains(key) && takes(read, cursor, key) && !rows.contains(key) ==> rows.len()
            == limit && forall|i: int|
            0 <= i < rows.len() ==> comes_before(read.order, #[trigger] rows[i], key)
}

/// The rows of some chunks, one chunk after another.
pub open spec fn all_rows(chunks: Seq<Seq<Seq<int>>>) -> Seq<Seq<int>>
    decreases chunks.len(),
{
    if chunks.len() == 0 {
        Seq::empty()
    } else {
        all_rows(chunks.drop_last()) + chunks.last()
    }
}

/// The cursor of a chunk: the last key of the one before it.
pub open spec fn cursor_of(chunks: Seq<Seq<Seq<int>>>, place: int) -> Seq<int> {
    if place > 0 {
        chunks[place - 1].last()
    } else {
        Seq::empty()
    }
}

/// Whether chunks were read forward from a table, each past the end of the one before it. Only the
/// last may be empty.
pub open spec fn read_forward(
    table: Set<Seq<int>>,
    width: nat,
    limits: Seq<nat>,
    chunks: Seq<Seq<Seq<int>>>,
) -> bool {
    &&& limits.len() == chunks.len()
    &&& forall|key: Seq<int>| #[trigger] table.contains(key) ==> key.len() == width
    &&& forall|i: int|
        0 <= i < chunks.len() ==> answers(
            forward(width, i > 0),
            table,
            cursor_of(chunks, i),
            limits[i],
            #[trigger] chunks[i],
        )
    &&& forall|i: int| 0 <= i < chunks.len() - 1 ==> (#[trigger] chunks[i]).len() > 0
}

proof fn lemma_order(a: Seq<int>, b: Seq<int>, c: Seq<int>)
    requires
        a.len() == b.len() == c.len(),
    ensures
        !key_less(a, a),
        key_less(a, b) && key_less(b, c) ==> key_less(a, c),
        a == b || key_less(a, b) || key_less(b, a),
        !(key_less(a, b) && key_less(b, a)),
    decreases a.len(),
{
    let order = forward(a.len(), false).order;
    if a.len() == 0 {
        assert(a =~= b);
    } else {
        assert(order.drop_first() =~= forward(a.drop_first().len(), false).order);
        lemma_order(a.drop_first(), b.drop_first(), c.drop_first());
        if a[0] == b[0] && a.drop_first() == b.drop_first() {
            assert forall|i: int| 0 <= i < a.len() implies a[i] == b[i] by {
                if i > 0 {
                    assert(a[i] == a.drop_first()[i - 1]);
                    assert(b[i] == b.drop_first()[i - 1]);
                }
            }
            assert(a =~= b);
        }
    }
}

/// Rows that ascend differ.
pub proof fn ascending_rows_differ(rows: Seq<Seq<int>>, width: nat)
    requires
        forall|i: int| 0 <= i < rows.len() ==> (#[trigger] rows[i]).len() == width,
        forall|i: int, j: int|
            0 <= i < j < rows.len() ==> key_less(#[trigger] rows[i], #[trigger] rows[j]),
    ensures
        rows.no_duplicates(),
{
    assert forall|i: int, j: int| 0 <= i < j < rows.len() implies rows[i] != rows[j] by {
        lemma_order(rows[i], rows[j], rows[i]);
    }
}

/// Chunks that are read forward ascend throughout, and hold exactly the rows of the table up to the
/// last of them.
proof fn lemma_chunks_reach(
    table: Set<Seq<int>>,
    width: nat,
    limits: Seq<nat>,
    chunks: Seq<Seq<Seq<int>>>,
)
    requires
        read_forward(table, width, limits, chunks),
    ensures
        ({
            let rows = all_rows(chunks);
            &&& forall|i: int| 0 <= i < rows.len() ==> table.contains(#[trigger] rows[i])
            &&& forall|i: int, j: int|
                0 <= i < j < rows.len() ==> key_less(#[trigger] rows[i], #[trigger] rows[j])
            &&& chunks.len() > 0 && chunks.last().len() > 0 ==> rows.len() > 0 && rows.last()
                == chunks.last().last()
            &&& chunks.len() > 1 && chunks.last().len() == 0 ==> rows.len() > 0 && rows.last()
                == cursor_of(chunks, chunks.len() - 1)
            &&& forall|key: Seq<int>| #[trigger]
                table.contains(key) && !rows.contains(key) && rows.len() > 0 ==> key_less(
                    rows.last(),
                    key,
                )
            &&& chunks.len() > 0 && chunks.last().len() < limits.last() ==> forall|key: Seq<int>|
                #[trigger] table.contains(key) ==> rows.contains(key)
        }),
    decreases chunks.len(),
{
    let rows = all_rows(chunks);
    if chunks.len() > 0 {
        let n = chunks.len() - 1;
        let fewer = chunks.drop_last();
        let less = limits.drop_last();
        assert forall|i: int| 0 <= i < fewer.len() implies answers(
            forward(width, i > 0),
            table,
            cursor_of(fewer, i),
            less[i],
            #[trigger] fewer[i],
        ) by {
            assert(fewer[i] == chunks[i]);
            assert(cursor_of(fewer, i) == cursor_of(chunks, i));
        }
        assert forall|i: int| 0 <= i < fewer.len() - 1 implies (#[trigger] fewer[i]).len() > 0 by {
            assert(fewer[i] == chunks[i]);
        }
        lemma_chunks_reach(table, width, less, fewer);
        let before = all_rows(fewer);
        let got = chunks[n];
        let cursor = cursor_of(chunks, n);
        let read = forward(width, n > 0);
        assert(answers(read, table, cursor, limits[n], got));
        assert(rows == before + got);
        if n == 0 {
            assert(before =~= Seq::<Seq<int>>::empty());
        } else {
            assert(chunks[n - 1].len() > 0);
            assert(fewer.last() == chunks[n - 1]);
            assert(before.len() > 0 && before.last() == cursor);
            assert(table.contains(before[before.len() - 1]));
        }
        assert(read.order =~= forward(width, false).order);
        assert forall|i: int| 0 <= i < rows.len() implies table.contains(#[trigger] rows[i]) by {
            if i < before.len() {
                assert(rows[i] == before[i]);
            } else {
                assert(rows[i] == got[i - before.len()]);
            }
        }
        assert forall|i: int, j: int| 0 <= i < j < rows.len() implies key_less(
            #[trigger] rows[i],
            #[trigger] rows[j],
        ) by {
            assert(table.contains(rows[i]) && table.contains(rows[j]));
            if j < before.len() {
                assert(rows[i] == before[i] && rows[j] == before[j]);
            } else if i >= before.len() {
                assert(rows[i] == got[i - before.len()]);
                assert(rows[j] == got[j - before.len()]);
            } else {
                assert(rows[i] == before[i]);
                assert(rows[j] == got[j - before.len()]);
                assert(takes(read, cursor, got[j - before.len()]));
                if i < before.len() - 1 {
                    assert(key_less(before[i], before[before.len() - 1]));
                }
                lemma_order(rows[i], cursor, rows[j]);
            }
        }
        assert forall|key: Seq<int>| #[trigger]
            table.contains(key) && !rows.contains(key) implies (rows.len() > 0 ==> key_less(
            rows.last(),
            key,
        )) && !(got.len() < limits[n]) by {
            if before.contains(key) {
                let k = choose|k: int| 0 <= k < before.len() && before[k] == key;
                assert(rows[k] == key);
            }
            if got.contains(key) {
                let k = choose|k: int| 0 <= k < got.len() && got[k] == key;
                assert(rows[before.len() + k] == key);
            }
            if n > 0 {
                assert(key_less(before.last(), key));
            }
            assert(takes(read, cursor, key));
            if got.len() > 0 {
                assert(comes_before(read.order, got[got.len() - 1], key));
                assert(rows.last() == got[got.len() - 1]);
                assert(table.contains(got[got.len() - 1]));
            } else if rows.len() > 0 {
                assert(rows.last() == before.last());
            }
        }
        if got.len() == 0 {
            assert(rows =~= before);
        }
    }
}

/// Chunks that are read forward, each past the end of the one before it, give no row twice and
/// miss none: together they are the table's rows up to the last one read, in ascending order, and
/// once a chunk falls short of its limit they are the whole table.
pub proof fn forward_chunks_cover_the_table(
    table: Set<Seq<int>>,
    width: nat,
    limits: Seq<nat>,
    chunks: Seq<Seq<Seq<int>>>,
)
    requires
        read_forward(table, width, limits, chunks),
    ensures
        all_rows(chunks).no_duplicates(),
        forall|i: int|
            0 <= i < all_rows(chunks).len() ==> table.contains(#[trigger] all_rows(chunks)[i]),
        forall|key: Seq<int>| #[trigger]
            table.contains(key) && !all_rows(chunks).contains(key) && all_rows(chunks).len() > 0
                ==> key_less(all_rows(chunks).last(), key),
        chunks.len() > 0 && chunks.last().len() < limits.last() ==> forall|key: Seq<int>|
            #[trigger] table.contains(key) ==> all_rows(chunks).contains(key),
{
    lemma_chunks_reach(table, width, limits, chunks);
    let rows = all_rows(chunks);
    assert forall|i: int| 0 <= i < rows.len() implies (#[trigger] rows[i]).len() == width by {
        assert(table.contains(rows[i]));
    }
    ascending_rows_differ(rows, width);
}

} // verus!
