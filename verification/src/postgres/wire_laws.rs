//! The `pgoutput` messages as a server writes them, and that they are read as they were written.
use vstd::prelude::*;
use crate::bytes;
use crate::error::Error;
use crate::postgres::decoder;
use crate::postgres::decoder::{
    MessageView, PgColumnView, PgOutputMessage, PgValueView, RelationView,
};

verus! {

// Writing

/// A number in so many bytes, most significant first.
pub open spec fn number_bytes(value: nat, width: nat) -> Seq<u8>
    decreases width,
{
    if width == 0 {
        Seq::empty()
    } else {
        number_bytes(value / 256, (width - 1) as nat).push((value % 256) as u8)
    }
}

/// A signed number in so many bytes, in two's complement.
pub open spec fn signed_bytes(value: int, width: nat) -> Seq<u8> {
    number_bytes(
        (if value < 0 {
            value + bytes::span(width)
        } else {
            value
        }) as nat,
        width,
    )
}

/// A text that a zero byte ends.
pub open spec fn name_bytes(name: Seq<char>) -> Seq<u8> {
    vstd::utf8::encode_utf8(name).push(0)
}

/// A column value: `n` for null, `u` for unchanged, `t` before a sized text.
pub open spec fn value_bytes(value: PgValueView) -> Seq<u8> {
    match value {
        PgValueView::Null => seq![0x6e],
        PgValueView::Unchanged => seq![0x75],
        PgValueView::Text(told) => seq![0x74] + number_bytes(
            vstd::utf8::encode_utf8(told).len(),
            4,
        ) + vstd::utf8::encode_utf8(told),
    }
}

/// Column values, one after another.
pub open spec fn values_bytes(values: Seq<PgValueView>) -> Seq<u8>
    decreases values.len(),
{
    if values.len() == 0 {
        Seq::empty()
    } else {
        values_bytes(values.drop_last()) + value_bytes(values.last())
    }
}

/// A tuple: how many values, and the values.
pub open spec fn tuple_bytes(values: Seq<PgValueView>) -> Seq<u8> {
    number_bytes(values.len(), 2) + values_bytes(values)
}

/// A column of a relation.
pub open spec fn column_bytes(column: PgColumnView) -> Seq<u8> {
    seq![column.flags] + name_bytes(column.name) + number_bytes(column.type_oid as nat, 4)
        + signed_bytes(column.type_modifier as int, 4)
}

/// Columns, one after another.
pub open spec fn columns_bytes(columns: Seq<PgColumnView>) -> Seq<u8>
    decreases columns.len(),
{
    if columns.len() == 0 {
        Seq::empty()
    } else {
        columns_bytes(columns.drop_last()) + column_bytes(columns.last())
    }
}

/// The numbers of relations, one after another.
pub open spec fn oids_bytes(oids: Seq<u32>) -> Seq<u8>
    decreases oids.len(),
{
    if oids.len() == 0 {
        Seq::empty()
    } else {
        oids_bytes(oids.drop_last()) + number_bytes(oids.last() as nat, 4)
    }
}

/// What a change says of the old row: `K` before its key, `O` before the whole of it.
pub open spec fn old_bytes(
    key_tuple: Option<Seq<PgValueView>>,
    old_tuple: Option<Seq<PgValueView>>,
) -> Seq<u8> {
    match (key_tuple, old_tuple) {
        (Some(key), _) => seq![0x4b] + tuple_bytes(key),
        (None, Some(old_row)) => seq![0x4f] + tuple_bytes(old_row),
        (None, None) => Seq::empty(),
    }
}

/// A message as a server writes it.
pub open spec fn message_bytes(message: MessageView) -> Seq<u8> {
    match message {
        MessageView::Begin(begin) => seq![0x42] + number_bytes(begin.final_lsn as nat, 8)
            + signed_bytes(begin.commit_timestamp_us as int, 8) + number_bytes(
            begin.xid as nat,
            4,
        ),
        MessageView::Commit(commit) => seq![0x43] + seq![commit.flags] + number_bytes(
            commit.commit_lsn as nat,
            8,
        ) + number_bytes(commit.end_lsn as nat, 8) + signed_bytes(
            commit.commit_timestamp_us as int,
            8,
        ),
        MessageView::Relation(relation) => seq![0x52] + number_bytes(relation.oid as nat, 4)
            + name_bytes(relation.namespace) + name_bytes(relation.name)
            + seq![relation.replica_identity] + number_bytes(relation.columns.len(), 2)
            + columns_bytes(relation.columns),
        MessageView::Insert { oid, new_tuple } => seq![0x49] + number_bytes(oid as nat, 4)
            + seq![0x4e] + tuple_bytes(new_tuple),
        MessageView::Update { oid, key_tuple, old_tuple, new_tuple } => seq![0x55] + number_bytes(
            oid as nat,
            4,
        ) + old_bytes(key_tuple, old_tuple) + seq![0x4e] + tuple_bytes(new_tuple),
        MessageView::Delete { oid, key_tuple, old_tuple } => seq![0x44] + number_bytes(
            oid as nat,
            4,
        ) + old_bytes(key_tuple, old_tuple),
        MessageView::Truncate { options, oids } => seq![0x54] + number_bytes(oids.len(), 4)
            + seq![options] + oids_bytes(oids),
        MessageView::LogicalMessage { transactional, lsn, prefix, content } => seq![0x4d] + seq![
            if transactional {
                1u8
            } else {
                0u8
            },
        ] + number_bytes(lsn as nat, 8) + name_bytes(prefix) + number_bytes(content.len(), 4)
            + content,
        MessageView::Unknown(tag) => seq![tag],
    }
}

/// Whether a name has no zero byte in it.
pub open spec fn writable_name(name: Seq<char>) -> bool {
    !vstd::utf8::encode_utf8(name).contains(0)
}

/// Whether the sizes in a tuple have room.
pub open spec fn writable_tuple(values: Seq<PgValueView>) -> bool {
    &&& values.len() < 0x1_0000
    &&& forall|i: int|
        0 <= i < values.len() ==> (#[trigger] values[i] matches PgValueView::Text(told)
            ==> vstd::utf8::encode_utf8(told).len() < 0x8000_0000)
}

/// Whether the sizes in a tuple, where there is one, have room.
pub open spec fn writable_option(tuple: Option<Seq<PgValueView>>) -> bool {
    tuple matches Some(values) ==> writable_tuple(values)
}

/// Whether a server can write a message: its names and sizes fit the format, a delete tells of its
/// old row, no change tells of it twice, and a tag that is not known is none of the known ones.
pub open spec fn writable(message: MessageView) -> bool {
    match message {
        MessageView::Begin(_) => true,
        MessageView::Commit(_) => true,
        MessageView::Relation(relation) => {
            &&& writable_name(relation.namespace)
            &&& writable_name(relation.name)
            &&& relation.columns.len() < 0x1_0000
            &&& forall|i: int|
                0 <= i < relation.columns.len() ==> writable_name(
                    (#[trigger] relation.columns[i]).name,
                )
        },
        MessageView::Insert { new_tuple, .. } => writable_tuple(new_tuple),
        MessageView::Update { key_tuple, old_tuple, new_tuple, .. } => {
            &&& writable_tuple(new_tuple)
            &&& writable_option(key_tuple)
            &&& writable_option(old_tuple)
            &&& key_tuple is None || old_tuple is None
        },
        MessageView::Delete { key_tuple, old_tuple, .. } => {
            &&& writable_option(key_tuple)
            &&& writable_option(old_tuple)
            &&& key_tuple is None || old_tuple is None
            &&& key_tuple is Some || old_tuple is Some
        },
        MessageView::Truncate { oids, .. } => oids.len() < 0x1_0000_0000,
        MessageView::LogicalMessage { prefix, content, .. } => {
            &&& writable_name(prefix)
            &&& content.len() < 0x8000_0000
        },
        MessageView::Unknown(tag) => tag != 0x42 && tag != 0x43 && tag != 0x52 && tag != 0x49
            && tag != 0x55 && tag != 0x44 && tag != 0x54 && tag != 0x4d,
    }
}

// Reading back

/// Whether some bytes stand at a place.
pub open spec fn stands(data: Seq<u8>, at: int, part: Seq<u8>) -> bool {
    &&& 0 <= at
    &&& at + part.len() <= data.len()
    &&& forall|i: int| 0 <= i < part.len() ==> data[at + i] == #[trigger] part[i]
}

proof fn lemma_parts(data: Seq<u8>, at: int, a: Seq<u8>, b: Seq<u8>)
    requires
        stands(data, at, a + b),
    ensures
        stands(data, at, a),
        stands(data, at + a.len(), b),
{
    let whole = a + b;
    assert forall|i: int| 0 <= i < a.len() implies data[at + i] == #[trigger] a[i] by {
        assert(whole[i] == a[i]);
    }
    assert forall|i: int| 0 <= i < b.len() implies data[at + a.len() + i] == #[trigger] b[i] by {
        assert(whole[a.len() + i] == b[i]);
    }
}

proof fn lemma_part(data: Seq<u8>, at: int, part: Seq<u8>)
    requires
        stands(data, at, part),
    ensures
        data.subrange(at, at + part.len()) == part,
{
    assert(data.subrange(at, at + part.len()) =~= part);
}

proof fn lemma_spans()
    ensures
        bytes::span(1) == 0x100,
        bytes::span(2) == 0x1_0000,
        bytes::span(4) == 0x1_0000_0000,
        bytes::span(8) == 0x1_0000_0000_0000_0000,
{
    reveal_with_fuel(bytes::span, 9);
}

proof fn lemma_number_bytes(value: nat, width: nat)
    requires
        value < bytes::span(width),
    ensures
        number_bytes(value, width).len() == width,
        bytes::big_endian(number_bytes(value, width)) == value,
    decreases width,
{
    if width > 0 {
        let low = (value % 256) as u8;
        let high = number_bytes(value / 256, (width - 1) as nat);
        assert(bytes::span(width) == 256 * bytes::span((width - 1) as nat));
        assert(value / 256 < bytes::span((width - 1) as nat));
        lemma_number_bytes(value / 256, (width - 1) as nat);
        assert(high.push(low).drop_last() =~= high);
    }
}

proof fn lemma_number(data: Seq<u8>, at: int, value: nat, width: nat)
    requires
        stands(data, at, number_bytes(value, width)),
        value < bytes::span(width),
    ensures
        number_bytes(value, width).len() == width,
        decoder::number_at(data, at, width) == Some(value),
{
    lemma_number_bytes(value, width);
    lemma_part(data, at, number_bytes(value, width));
}

proof fn lemma_signed(data: Seq<u8>, at: int, value: int, width: nat)
    requires
        stands(data, at, signed_bytes(value, width)),
        -bytes::span(width) <= 2 * value < bytes::span(width),
    ensures
        signed_bytes(value, width).len() == width,
        decoder::number_at(data, at, width) matches Some(raw) && bytes::signed(raw, width) == value,
{
    let raw = (if value < 0 {
        value + bytes::span(width)
    } else {
        value
    }) as nat;
    lemma_number(data, at, raw, width);
}

proof fn lemma_byte(data: Seq<u8>, at: int, value: u8)
    requires
        stands(data, at, seq![value]),
    ensures
        0 <= at < data.len(),
        data[at] == value,
        decoder::number_at(data, at, 1) == Some(value as nat),
{
    assert(seq![value][0] == value);
    assert(data[at + 0] == seq![value][0]);
    let part = data.subrange(at, at + 1);
    assert(part.drop_last() =~= Seq::<u8>::empty());
    reveal_with_fuel(bytes::big_endian, 2);
}

proof fn lemma_zero(data: Seq<u8>, at: int, from: int, size: int)
    requires
        0 <= at <= from <= at + size < data.len(),
        data[at + size] == 0,
        forall|i: int| at <= i < at + size ==> data[i] != 0,
    ensures
        decoder::zero_at(data, from) == at + size,
    decreases at + size - from,
{
    if from < at + size {
        lemma_zero(data, at, from + 1, size);
    }
}

proof fn lemma_name(data: Seq<u8>, at: int, name: Seq<char>)
    requires
        stands(data, at, name_bytes(name)),
        writable_name(name),
    ensures
        decoder::text_at(data, at) == Some((name, at + name_bytes(name).len())),
{
    let told = vstd::utf8::encode_utf8(name);
    let whole = name_bytes(name);
    vstd::utf8::encode_utf8_valid_utf8(name);
    vstd::utf8::encode_utf8_decode_utf8(name);
    assert(data[at + told.len()] == whole[told.len() as int]);
    assert forall|i: int| at <= i < at + told.len() implies data[i] != 0 by {
        assert(data[at + (i - at)] == whole[i - at]);
        assert(told[i - at] != 0) by {
            assert(told.contains(told[i - at]));
        }
    }
    lemma_zero(data, at, at, told.len() as int);
    assert forall|i: int| 0 <= i < told.len() implies data[at + i] == told[i] by {
        assert(whole[i] == told[i]);
    }
    assert(data.subrange(at, at + told.len()) =~= told);
}

proof fn lemma_value(data: Seq<u8>, at: int, value: PgValueView)
    requires
        stands(data, at, value_bytes(value)),
        value matches PgValueView::Text(told) ==> vstd::utf8::encode_utf8(told).len()
            < 0x8000_0000,
    ensures
        decoder::value_at(data, at) == Some((value, at + value_bytes(value).len())),
{
    match value {
        PgValueView::Null => {
            lemma_byte(data, at, 0x6e);
        },
        PgValueView::Unchanged => {
            lemma_byte(data, at, 0x75);
        },
        PgValueView::Text(told) => {
            let body = vstd::utf8::encode_utf8(told);
            let size = number_bytes(body.len(), 4);
            lemma_spans();
            lemma_parts(data, at, seq![0x74u8] + size, body);
            lemma_parts(data, at, seq![0x74u8], size);
            lemma_byte(data, at, 0x74);
            lemma_number(data, at + 1, body.len(), 4);
            lemma_part(data, at + 5, body);
            vstd::utf8::encode_utf8_valid_utf8(told);
            vstd::utf8::encode_utf8_decode_utf8(told);
        },
    }
}

proof fn lemma_values(data: Seq<u8>, at: int, values: Seq<PgValueView>)
    requires
        stands(data, at, values_bytes(values)),
        forall|i: int|
            0 <= i < values.len() ==> (#[trigger] values[i] matches PgValueView::Text(told)
                ==> vstd::utf8::encode_utf8(told).len() < 0x8000_0000),
    ensures
        decoder::values_at(data, at, values.len()) == Some(
            (values, at + values_bytes(values).len()),
        ),
    decreases values.len(),
{
    if values.len() == 0 {
        assert(values =~= Seq::<PgValueView>::empty());
    } else {
        let fewer = values.drop_last();
        lemma_parts(data, at, values_bytes(fewer), value_bytes(values.last()));
        assert forall|i: int| 0 <= i < fewer.len() implies (
        #[trigger] fewer[i] matches PgValueView::Text(told) ==> vstd::utf8::encode_utf8(told).len()
            < 0x8000_0000) by {
            assert(fewer[i] == values[i]);
        }
        lemma_values(data, at, fewer);
        assert(values[values.len() - 1] == values.last());
        lemma_value(data, at + values_bytes(fewer).len(), values.last());
        assert(fewer.push(values.last()) =~= values);
    }
}

proof fn lemma_tuple(data: Seq<u8>, at: int, values: Seq<PgValueView>)
    requires
        stands(data, at, tuple_bytes(values)),
        writable_tuple(values),
    ensures
        decoder::tuple_at(data, at) == Some((values, at + tuple_bytes(values).len())),
{
    lemma_spans();
    lemma_parts(data, at, number_bytes(values.len(), 2), values_bytes(values));
    lemma_number(data, at, values.len(), 2);
    lemma_values(data, at + 2, values);
}

proof fn lemma_column(data: Seq<u8>, at: int, column: PgColumnView)
    requires
        stands(data, at, column_bytes(column)),
        writable_name(column.name),
    ensures
        decoder::column_at(data, at) == Some((column, at + column_bytes(column).len())),
{
    let a = seq![column.flags];
    let b = name_bytes(column.name);
    let c = number_bytes(column.type_oid as nat, 4);
    let d = signed_bytes(column.type_modifier as int, 4);
    lemma_spans();
    lemma_parts(data, at, a + b + c, d);
    lemma_parts(data, at, a + b, c);
    lemma_parts(data, at, a, b);
    lemma_byte(data, at, column.flags);
    lemma_name(data, at + 1, column.name);
    lemma_number(data, at + 1 + b.len(), column.type_oid as nat, 4);
    lemma_signed(data, at + 1 + b.len() + 4, column.type_modifier as int, 4);
}

proof fn lemma_columns(data: Seq<u8>, at: int, columns: Seq<PgColumnView>)
    requires
        stands(data, at, columns_bytes(columns)),
        forall|i: int| 0 <= i < columns.len() ==> writable_name((#[trigger] columns[i]).name),
    ensures
        decoder::columns_at(data, at, columns.len()) == Some(
            (columns, at + columns_bytes(columns).len()),
        ),
    decreases columns.len(),
{
    if columns.len() == 0 {
        assert(columns =~= Seq::<PgColumnView>::empty());
    } else {
        let fewer = columns.drop_last();
        lemma_parts(data, at, columns_bytes(fewer), column_bytes(columns.last()));
        assert forall|i: int| 0 <= i < fewer.len() implies writable_name(
            (#[trigger] fewer[i]).name,
        ) by {
            assert(fewer[i] == columns[i]);
        }
        lemma_columns(data, at, fewer);
        assert(columns[columns.len() - 1] == columns.last());
        lemma_column(data, at + columns_bytes(fewer).len(), columns.last());
        assert(fewer.push(columns.last()) =~= columns);
    }
}

proof fn lemma_oids(data: Seq<u8>, at: int, oids: Seq<u32>)
    requires
        stands(data, at, oids_bytes(oids)),
    ensures
        oids_bytes(oids).len() == 4 * oids.len(),
        decoder::oids_at(data, at, oids.len()) == Some(oids),
    decreases oids.len(),
{
    lemma_spans();
    let read = Seq::new(
        oids.len(),
        |i: int| bytes::big_endian(data.subrange(at + 4 * i, at + 4 * i + 4)) as u32,
    );
    if oids.len() > 0 {
        let fewer = oids.drop_last();
        let n = fewer.len() as int;
        lemma_parts(data, at, oids_bytes(fewer), number_bytes(oids.last() as nat, 4));
        lemma_oids(data, at, fewer);
        lemma_number(data, at + 4 * n, oids.last() as nat, 4);
        let before = decoder::oids_at(data, at, fewer.len())->0;
        assert forall|i: int| 0 <= i < oids.len() implies #[trigger] read[i] == oids[i] by {
            if i < n {
                assert(before[i] == fewer[i]);
                assert(fewer[i] == oids[i]);
            }
        }
    }
    assert(read =~= oids);
}

proof fn lemma_old_image(
    data: Seq<u8>,
    at: int,
    key_tuple: Option<Seq<PgValueView>>,
    old_tuple: Option<Seq<PgValueView>>,
)
    requires
        stands(data, at, old_bytes(key_tuple, old_tuple)),
        writable_option(key_tuple),
        writable_option(old_tuple),
        key_tuple is None || old_tuple is None,
        key_tuple is None && old_tuple is None ==> at < data.len() && data[at] != 0x4b && data[at]
            != 0x4f,
    ensures
        decoder::old_image_at(data, at) == Some(
            (key_tuple, old_tuple, at + old_bytes(key_tuple, old_tuple).len()),
        ),
{
    match (key_tuple, old_tuple) {
        (Some(key), _) => {
            lemma_parts(data, at, seq![0x4bu8], tuple_bytes(key));
            lemma_byte(data, at, 0x4b);
            lemma_tuple(data, at + 1, key);
        },
        (None, Some(old_row)) => {
            lemma_parts(data, at, seq![0x4fu8], tuple_bytes(old_row));
            lemma_byte(data, at, 0x4f);
            lemma_tuple(data, at + 1, old_row);
        },
        (None, None) => {},
    }
}

/// Every message that a server can write is read as it was written, whatever bytes follow it: each
/// kind by its tag, each number, name and value in its place, and the old row of a change as its
/// key where the key was written and as the whole row where that was.
pub proof fn message_reads_back(message: MessageView, rest: Seq<u8>)
    requires
        writable(message),
    ensures
        decoder::message_in(message_bytes(message) + rest) == Some(message),
{
    let data = message_bytes(message) + rest;
    assert(stands(data, 0, message_bytes(message)));
    match message {
        MessageView::Begin(_) => {
            lemma_begin(data, message);
        },
        MessageView::Commit(_) => {
            lemma_commit(data, message);
        },
        MessageView::Relation(relation) => {
            lemma_relation(data, relation);
        },
        MessageView::Insert { .. } => {
            lemma_insert(data, message);
        },
        MessageView::Update { .. } => {
            lemma_update(data, message);
        },
        MessageView::Delete { .. } => {
            lemma_delete(data, message);
        },
        MessageView::Truncate { .. } => {
            lemma_truncate(data, message);
        },
        MessageView::LogicalMessage { .. } => {
            lemma_logical_message(data, message);
        },
        MessageView::Unknown(_) => {
            lemma_unknown(data, message);
        },
    }
}

proof fn lemma_begin(data: Seq<u8>, message: MessageView)
    requires
        message is Begin,
        stands(data, 0, message_bytes(message)),
        writable(message),
    ensures
        decoder::message_in(data) == Some(message),
{
    lemma_spans();
    if let MessageView::Begin(begin) = message {
        let t = seq![0x42u8];
        let a = number_bytes(begin.final_lsn as nat, 8);
        let b = signed_bytes(begin.commit_timestamp_us as int, 8);
        let c = number_bytes(begin.xid as nat, 4);
        lemma_parts(data, 0, t + a + b, c);
        lemma_parts(data, 0, t + a, b);
        lemma_parts(data, 0, t, a);
        lemma_byte(data, 0, 0x42);
        lemma_number(data, 1, begin.final_lsn as nat, 8);
        lemma_signed(data, 9, begin.commit_timestamp_us as int, 8);
        lemma_number(data, 17, begin.xid as nat, 4);
    }
}

proof fn lemma_commit(data: Seq<u8>, message: MessageView)
    requires
        message is Commit,
        stands(data, 0, message_bytes(message)),
        writable(message),
    ensures
        decoder::message_in(data) == Some(message),
{
    lemma_spans();
    if let MessageView::Commit(commit) = message {
        let t = seq![0x43u8];
        let f = seq![commit.flags];
        let a = number_bytes(commit.commit_lsn as nat, 8);
        let b = number_bytes(commit.end_lsn as nat, 8);
        let c = signed_bytes(commit.commit_timestamp_us as int, 8);
        lemma_parts(data, 0, t + f + a + b, c);
        lemma_parts(data, 0, t + f + a, b);
        lemma_parts(data, 0, t + f, a);
        lemma_parts(data, 0, t, f);
        lemma_byte(data, 0, 0x43);
        lemma_byte(data, 1, commit.flags);
        lemma_number(data, 2, commit.commit_lsn as nat, 8);
        lemma_number(data, 10, commit.end_lsn as nat, 8);
        lemma_signed(data, 18, commit.commit_timestamp_us as int, 8);
    }
}

proof fn lemma_insert(data: Seq<u8>, message: MessageView)
    requires
        message is Insert,
        stands(data, 0, message_bytes(message)),
        writable(message),
    ensures
        decoder::message_in(data) == Some(message),
{
    lemma_spans();
    if let MessageView::Insert { oid, new_tuple } = message {
        let t = seq![0x49u8];
        let a = number_bytes(oid as nat, 4);
        let n = seq![0x4eu8];
        let b = tuple_bytes(new_tuple);
        lemma_parts(data, 0, t + a + n, b);
        lemma_parts(data, 0, t + a, n);
        lemma_parts(data, 0, t, a);
        lemma_byte(data, 0, 0x49);
        lemma_number(data, 1, oid as nat, 4);
        lemma_byte(data, 5, 0x4e);
        lemma_tuple(data, 6, new_tuple);
    }
}

proof fn lemma_update(data: Seq<u8>, message: MessageView)
    requires
        message is Update,
        stands(data, 0, message_bytes(message)),
        writable(message),
    ensures
        decoder::message_in(data) == Some(message),
{
    lemma_spans();
    if let MessageView::Update { oid, key_tuple, old_tuple, new_tuple } = message {
        let t = seq![0x55u8];
        let a = number_bytes(oid as nat, 4);
        let o = old_bytes(key_tuple, old_tuple);
        let n = seq![0x4eu8];
        let b = tuple_bytes(new_tuple);
        lemma_parts(data, 0, t + a + o + n, b);
        lemma_parts(data, 0, t + a + o, n);
        lemma_parts(data, 0, t + a, o);
        lemma_parts(data, 0, t, a);
        lemma_byte(data, 0, 0x55);
        lemma_number(data, 1, oid as nat, 4);
        lemma_byte(data, 5int + o.len(), 0x4e);
        lemma_old_image(data, 5, key_tuple, old_tuple);
        lemma_tuple(data, 6int + o.len(), new_tuple);
    }
}

proof fn lemma_delete(data: Seq<u8>, message: MessageView)
    requires
        message is Delete,
        stands(data, 0, message_bytes(message)),
        writable(message),
    ensures
        decoder::message_in(data) == Some(message),
{
    lemma_spans();
    if let MessageView::Delete { oid, key_tuple, old_tuple } = message {
        let t = seq![0x44u8];
        let a = number_bytes(oid as nat, 4);
        let o = old_bytes(key_tuple, old_tuple);
        lemma_parts(data, 0, t + a, o);
        lemma_parts(data, 0, t, a);
        lemma_byte(data, 0, 0x44);
        lemma_number(data, 1, oid as nat, 4);
        lemma_old_image(data, 5, key_tuple, old_tuple);
    }
}

proof fn lemma_truncate(data: Seq<u8>, message: MessageView)
    requires
        message is Truncate,
        stands(data, 0, message_bytes(message)),
        writable(message),
    ensures
        decoder::message_in(data) == Some(message),
{
    lemma_spans();
    if let MessageView::Truncate { options, oids } = message {
        let t = seq![0x54u8];
        let a = number_bytes(oids.len(), 4);
        let f = seq![options];
        let b = oids_bytes(oids);
        lemma_parts(data, 0, t + a + f, b);
        lemma_parts(data, 0, t + a, f);
        lemma_parts(data, 0, t, a);
        lemma_byte(data, 0, 0x54);
        lemma_number(data, 1, oids.len(), 4);
        lemma_byte(data, 5, options);
        lemma_oids(data, 6, oids);
    }
}

proof fn lemma_logical_message(data: Seq<u8>, message: MessageView)
    requires
        message is LogicalMessage,
        stands(data, 0, message_bytes(message)),
        writable(message),
    ensures
        decoder::message_in(data) == Some(message),
{
    lemma_spans();
    if let MessageView::LogicalMessage { transactional, lsn, prefix, content } = message {
        let t = seq![0x4du8];
        let flags = if transactional {
            1u8
        } else {
            0u8
        };
        let f = seq![flags];
        let a = number_bytes(lsn as nat, 8);
        let p = name_bytes(prefix);
        let s = number_bytes(content.len(), 4);
        lemma_parts(data, 0, t + f + a + p + s, content);
        lemma_parts(data, 0, t + f + a + p, s);
        lemma_parts(data, 0, t + f + a, p);
        lemma_parts(data, 0, t + f, a);
        lemma_parts(data, 0, t, f);
        lemma_byte(data, 0, 0x4d);
        lemma_byte(data, 1, flags);
        lemma_number(data, 2, lsn as nat, 8);
        lemma_name(data, 10, prefix);
        lemma_number(data, 10int + p.len(), content.len(), 4);
        lemma_part(data, 14int + p.len(), content);
    }
}

proof fn lemma_unknown(data: Seq<u8>, message: MessageView)
    requires
        message is Unknown,
        stands(data, 0, message_bytes(message)),
        writable(message),
    ensures
        decoder::message_in(data) == Some(message),
{
    lemma_spans();
    if let MessageView::Unknown(tag) = message {
        lemma_byte(data, 0, tag);
    }
}

proof fn lemma_relation(data: Seq<u8>, relation: RelationView)
    requires
        stands(data, 0, message_bytes(MessageView::Relation(relation))),
        writable(MessageView::Relation(relation)),
    ensures
        decoder::message_in(data) == Some(MessageView::Relation(relation)),
{
    lemma_spans();
    let t = seq![0x52u8];
    let a = number_bytes(relation.oid as nat, 4);
    let b = name_bytes(relation.namespace);
    let c = name_bytes(relation.name);
    let i = seq![relation.replica_identity];
    let n = number_bytes(relation.columns.len(), 2);
    let d = columns_bytes(relation.columns);
    lemma_parts(data, 0, t + a + b + c + i + n, d);
    lemma_parts(data, 0, t + a + b + c + i, n);
    lemma_parts(data, 0, t + a + b + c, i);
    lemma_parts(data, 0, t + a + b, c);
    lemma_parts(data, 0, t + a, b);
    lemma_parts(data, 0, t, a);
    lemma_byte(data, 0, 0x52);
    lemma_number(data, 1, relation.oid as nat, 4);
    lemma_name(data, 5, relation.namespace);
    lemma_name(data, 5int + b.len(), relation.name);
    lemma_byte(data, 5int + b.len() + c.len(), relation.replica_identity);
    lemma_number(data, 6int + b.len() + c.len(), relation.columns.len(), 2);
    lemma_columns(data, 8int + b.len() + c.len(), relation.columns);
}

/// Different messages are written differently, so that what was sent is never taken for something
/// else.
pub proof fn messages_are_told_apart(message: MessageView, other: MessageView)
    requires
        writable(message),
        writable(other),
        message != other,
    ensures
        message_bytes(message) != message_bytes(other),
{
    let nothing = Seq::<u8>::empty();
    message_reads_back(message, nothing);
    message_reads_back(other, nothing);
    assert(message_bytes(message) + nothing =~= message_bytes(message));
    assert(message_bytes(other) + nothing =~= message_bytes(other));
}

/// A delete that is read tells of its old row, by its key or as a whole.
pub proof fn read_delete_tells_of_its_row(data: Seq<u8>)
    ensures
        decoder::message_in(data) matches Some(
            MessageView::Delete { oid, key_tuple, old_tuple },
        ) ==> key_tuple is Some || old_tuple is Some,
{
}

/// Decoding what the server wrote gives the message that it wrote, whatever its kind: no part of it
/// is lost, and what follows it does not matter.
pub proof fn decoding_undoes_writing(
    data: &[u8],
    written: MessageView,
    rest: Seq<u8>,
    decoded: Result<PgOutputMessage, Error>,
)
    requires
        writable(written),
        data@ == message_bytes(written) + rest,
        call_ensures(decoder::decode_pgoutput_message, (data,), decoded),
    ensures
        decoded matches Ok(message) && message@ == written,
{
    message_reads_back(written, rest);
}

} // verus!
