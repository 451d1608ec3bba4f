//! What a MySQL row's payload holds: each value under its column's name, and each kind of value as
//! the server means it.
use vstd::prelude::*;
use crate::json;
use crate::json::Json;
use crate::mysql::reader;
use crate::mysql::reader::{BinlogBatch, ReadAction, RowImage};
use crate::mysql::resume;
use crate::mysql::stream;
use crate::mysql::stream::MessageView;
use crate::mysql::values;
use crate::text;
use crate::text_laws;

verus! {

// Rows

proof fn lemma_members(names: Seq<Seq<char>>, data: Seq<Json>, count: int)
    requires
        0 <= count <= names.len(),
        names.len() == data.len(),
        names.no_duplicates(),
    ensures
        forall|name: Seq<char>| #[trigger]
            reader::members(names, data, count).contains_key(name) <==> names.take(count).contains(
                name,
            ),
        forall|i: int|
            0 <= i < count ==> reader::members(names, data, count)[#[trigger] names[i]] == data[i],
    decreases count,
{
    if count > 0 {
        lemma_members(names, data, count - 1);
        let before = reader::members(names, data, count - 1);
        let now = reader::members(names, data, count);
        let less = names.take(count - 1);
        assert(names.take(count) =~= names.take(count - 1).push(names[count - 1]));
        assert forall|name: Seq<char>| #[trigger] now.contains_key(name) <==> names.take(
            count,
        ).contains(name) by {
            if names.take(count).contains(name) {
                let k = choose|k: int| 0 <= k < count && names.take(count)[k] == name;
                if k < count - 1 {
                    assert(names.take(count - 1)[k] == name);
                    assert(names.take(count - 1).contains(name));
                    assert(before.contains_key(name));
                }
            }
            if now.contains_key(name) {
                if name == names[count - 1] {
                    assert(names.take(count)[count - 1] == name);
                } else {
                    assert(before.contains_key(name));
                    let k = choose|k: int| 0 <= k < less.len() && less[k] == name;
                    assert(names.take(count)[k] == name);
                }
            }
        }
        assert forall|i: int| 0 <= i < count implies now[#[trigger] names[i]] == data[i] by {
            if i < count - 1 {
                assert(names[i] != names[count - 1]);
                assert(before[names[i]] == data[i]);
            }
        }
    } else {
        assert(names.take(0) =~= Seq::<Seq<char>>::empty());
    }
}

/// A row's payload holds each column's value under the column's name, and nothing else.
pub proof fn row_payload_holds_each_column(image: RowImage, place: int)
    requires
        image.wf(),
        text::texts(image.columns@).no_duplicates(),
        0 <= place < image.columns@.len(),
    ensures
        image.payload() is Object,
        image.payload().members().contains_key(image.columns@[place]@),
        image.payload().members()[image.columns@[place]@] == json::json(
            image.values@[place],
        ),
        forall|name: Seq<char>| #[trigger]
            image.payload().members().contains_key(name) ==> text::texts(image.columns@).contains(
                name,
            ),
{
    let names = text::texts(image.columns@);
    let data = json::jsons(image.values@);
    lemma_members(names, data, names.len() as int);
    assert(names.take(names.len() as int) =~= names);
    assert(names[place] == image.columns@[place]@);
    assert(names.contains(names[place]));
    assert(data[place] == json::json(image.values@[place]));
}

/// The key of a row names the columns that the log flags as key columns, and no other.
pub proof fn row_key_names_the_flagged_columns(
    names: Seq<Seq<char>>,
    flags: Seq<bool>,
    place: int,
)
    requires
        names.len() <= flags.len(),
        names.no_duplicates(),
        0 <= place < names.len(),
    ensures
        reader::flagged(names, flags).contains(names[place]) <==> flags[place],
    decreases names.len(),
{
    let less = names.drop_last();
    let before = reader::flagged(less, flags);
    let now = reader::flagged(names, flags);
    lemma_flagged_are_names(less, flags);
    if place < less.len() {
        assert(less[place] == names[place]);
        row_key_names_the_flagged_columns(less, flags, place);
        if flags[place] {
            let k = choose|k: int| 0 <= k < before.len() && before[k] == names[place];
            assert(now[k] == names[place]);
        }
        if now.contains(names[place]) {
            let k = choose|k: int| 0 <= k < now.len() && now[k] == names[place];
            if k < before.len() {
                assert(before[k] == names[place]);
                assert(before.contains(names[place]));
            } else {
                assert(names[place] == names[names.len() - 1]);
            }
        }
    } else {
        if flags[place] {
            assert(now[now.len() - 1] == names[place]);
        }
        if now.contains(names[place]) && !flags[place] {
            let k = choose|k: int| 0 <= k < now.len() && now[k] == names[place];
            assert(before[k] == names[place]);
            assert(less.contains(before[k]));
            let m = choose|m: int| 0 <= m < less.len() && less[m] == before[k];
            assert(names[m] == names[place]);
        }
    }
}

proof fn lemma_flagged_are_names(names: Seq<Seq<char>>, flags: Seq<bool>)
    ensures
        forall|k: int|
            0 <= k < reader::flagged(names, flags).len() ==> names.contains(
                #[trigger] reader::flagged(names, flags)[k],
            ),
        reader::flagged(names, flags).len() <= names.len(),
    decreases names.len(),
{
    if names.len() > 0 {
        let less = names.drop_last();
        lemma_flagged_are_names(less, flags);
        assert forall|k: int| 0 <= k < reader::flagged(names, flags).len() implies names.contains(
            #[trigger] reader::flagged(names, flags)[k],
        ) by {
            let before = reader::flagged(less, flags);
            if k < before.len() {
                assert(less.contains(before[k]));
                let m = choose|m: int| 0 <= m < less.len() && less[m] == before[k];
                assert(names[m] == before[k]);
            } else {
                assert(names[names.len() - 1] == names.last());
            }
        }
    }
}

/// The key columns of a row come in the row's order: where all columns are flagged the key is the
/// columns, where none is there is none, and the key of a row is that of its first columns followed
/// by that of the rest.
pub proof fn row_key_is_in_row_order(
    names: Seq<Seq<char>>,
    flags: Seq<bool>,
    more: Seq<Seq<char>>,
    more_flags: Seq<bool>,
)
    requires
        names.len() == flags.len(),
        more.len() == more_flags.len(),
    ensures
        reader::flagged(names + more, flags + more_flags) == reader::flagged(names, flags)
            + reader::flagged(more, more_flags),
        more.len() == 1 && more_flags[0] ==> reader::flagged(more, more_flags) == more,
        more.len() == 1 && !more_flags[0] ==> reader::flagged(more, more_flags).len() == 0,
    decreases more.len(),
{
    let all = names + more;
    let all_flags = flags + more_flags;
    if more.len() == 0 {
        assert(all =~= names);
        assert(all_flags =~= flags);
        assert(reader::flagged(more, more_flags) =~= Seq::<Seq<char>>::empty());
        assert(reader::flagged(names, flags) + Seq::<Seq<char>>::empty() =~= reader::flagged(
            names,
            flags,
        ));
    } else {
        let less = more.drop_last();
        let less_flags = more_flags.drop_last();
        row_key_is_in_row_order(names, flags, less, less_flags);
        assert(all.drop_last() =~= names + less);
        lemma_flags_of_the_names(names + less, all_flags, flags + less_flags);
        lemma_flags_of_the_names(less, more_flags, less_flags);
        assert(all.last() == more.last());
        assert(all_flags[all.len() - 1] == more_flags[more.len() - 1]);
        if more.len() == 1 {
            assert(less =~= Seq::<Seq<char>>::empty());
            assert(more =~= seq![more[0]]);
            assert(reader::flagged(less, more_flags) =~= Seq::<Seq<char>>::empty());
            if more_flags[0] {
                assert(reader::flagged(more, more_flags) =~= more);
            }
        }
        assert(reader::flagged(all, all_flags) =~= reader::flagged(names, flags)
            + reader::flagged(more, more_flags));
    }
}

proof fn lemma_flags_of_the_names(names: Seq<Seq<char>>, flags: Seq<bool>, others: Seq<bool>)
    requires
        names.len() <= flags.len(),
        names.len() <= others.len(),
        forall|i: int| 0 <= i < names.len() ==> flags[i] == others[i],
    ensures
        reader::flagged(names, flags) == reader::flagged(names, others),
    decreases names.len(),
{
    if names.len() > 0 {
        lemma_flags_of_the_names(names.drop_last(), flags, others);
    }
}

/// A change is keyed by the row as it was, and by the row as it is only where the log carries no
/// key of the row as it was.
pub proof fn change_is_keyed_by_the_row_before_it(
    before: Option<RowImage>,
    after: Option<RowImage>,
)
    ensures
        before matches Some(row) && row.key().len() > 0 ==> reader::change_key(before, after)
            == Some(before->0.key()),
        !(before matches Some(row) && row.key().len() > 0) ==> (after matches Some(row)
            && row.key().len() > 0 ==> reader::change_key(before, after) == Some(after->0.key())),
        !(before matches Some(row) && row.key().len() > 0) && !(after matches Some(row)
            && row.key().len() > 0) ==> reader::change_key(before, after) is None,
{
}

// Values

/// An ENUM value shows the label that its number counts to, starting at one. Zero shows the empty
/// text, and a number past the labels shows nothing.
pub proof fn enum_value_shows_its_label(labels: Seq<Seq<char>>, place: int)
    ensures
        0 <= place < labels.len() ==> values::enum_text(labels, place + 1) == Some(labels[place]),
        values::enum_text(labels, 0) matches Some(shown) && shown.len() == 0,
        place >= labels.len() ==> values::enum_text(labels, place + 1) is None,
{
}

/// Two to the power of a bit's place in a byte.
pub open spec fn bit_weight(place: int) -> int {
    if place == 0 {
        1
    } else if place == 1 {
        2
    } else if place == 2 {
        4
    } else if place == 3 {
        8
    } else if place == 4 {
        16
    } else if place == 5 {
        32
    } else if place == 6 {
        64
    } else {
        128
    }
}

/// A member is in a SET value exactly where its bit is set: of the first eight members in the first
/// byte, of the next eight in the second, from the lowest bit on.
pub proof fn set_member_has_its_own_bit(bits: Seq<u8>, byte: int, place: int)
    requires
        0 <= byte,
        0 <= place < 8,
    ensures
        values::holds(bits, 8 * byte + place) <==> (byte < bits.len() && (bits[byte] as int
            / bit_weight(place)) % 2 == 1),
{
    let member = 8 * byte + place;
    assert(member / 8 == byte && member % 8 == place);
    if byte < bits.len() {
        let b = bits[byte];
        assert((b >> 0u8) & 1u8 == (b / 1) % 2) by (bit_vector);
        assert((b >> 1u8) & 1u8 == (b / 2) % 2) by (bit_vector);
        assert((b >> 2u8) & 1u8 == (b / 4) % 2) by (bit_vector);
        assert((b >> 3u8) & 1u8 == (b / 8) % 2) by (bit_vector);
        assert((b >> 4u8) & 1u8 == (b / 16) % 2) by (bit_vector);
        assert((b >> 5u8) & 1u8 == (b / 32) % 2) by (bit_vector);
        assert((b >> 6u8) & 1u8 == (b / 64) % 2) by (bit_vector);
        assert((b >> 7u8) & 1u8 == (b / 128) % 2) by (bit_vector);
    }
}

/// A SET value shows the labels of its members, in the labels' order: with one more label it shows
/// what it showed before, and behind it that label where it is a member's.
pub proof fn set_value_shows_its_members(
    labels: Seq<Seq<char>>,
    label: Seq<char>,
    bits: Seq<u8>,
)
    ensures
        values::members_of(Seq::empty(), bits).len() == 0,
        values::holds(bits, labels.len() as int) ==> values::members_of(labels.push(label), bits)
            == values::members_of(labels, bits).push(label),
        !values::holds(bits, labels.len() as int) ==> values::members_of(labels.push(label), bits)
            == values::members_of(labels, bits),
{
    assert(labels.push(label).drop_last() =~= labels);
}

/// Bytes that are no text show as two hexadecimal digits each, in order; bytes that are text show
/// as the text.
pub proof fn bytes_show_as_text_or_digits(data: Seq<u8>, place: int)
    requires
        0 <= place < data.len(),
    ensures
        vstd::utf8::valid_utf8(data) ==> values::bytes_json(data) == Json::Text(
            vstd::utf8::decode_utf8(data),
        ),
        !vstd::utf8::valid_utf8(data) ==> (values::bytes_json(data) matches Json::Text(shown)
            && shown.len() == 2 * data.len() && data[place] as int == 16 * text_laws::hex_value(
            shown[2 * place],
        ) + text_laws::hex_value(shown[2 * place + 1])),
{
    lemma_hex_pairs(data, place);
}

proof fn lemma_hex_pairs(data: Seq<u8>, place: int)
    requires
        0 <= place < data.len(),
    ensures
        values::hex_pairs(data).len() == 2 * data.len(),
        data[place] as int == 16 * text_laws::hex_value(values::hex_pairs(data)[2 * place])
            + text_laws::hex_value(values::hex_pairs(data)[2 * place + 1]),
    decreases data.len(),
{
    let less = data.drop_last();
    text_laws::byte_reads_back_from_its_digits(data.last());
    if less.len() > 0 {
        lemma_hex_pairs(
            less,
            if place < less.len() {
                place
            } else {
                0
            },
        );
    } else {
        assert(values::hex_pairs(less).len() == 0);
    }
}

/// A SET value is shown only where every bit that is set in it has a label.
pub proof fn unlabelled_member_is_refused(bits: Seq<u8>, count: int, byte: int, place: int)
    requires
        0 <= byte < bits.len(),
        0 <= place < 8,
        count <= 8 * byte + place,
        (bits[byte] as int / bit_weight(place)) % 2 == 1,
    ensures
        !values::labelled(count, bits),
{
    set_member_has_its_own_bit(bits, byte, place);
    assert(8 * byte + place < 8 * bits.len());
    assert(values::holds(bits, 8 * byte + place));
}

/// A batch of binlog events hands over what it gathered, message for message, or goes on with it.
pub proof fn batch_hands_over_what_it_gathered(
    gathered: Seq<MessageView>,
    max_events: usize,
    remaining: nat,
    poll_interval_ms: u64,
    action: ReadAction,
    left: BinlogBatch,
)
    requires
        reader::goes_on(gathered, max_events, remaining, poll_interval_ms, action, left),
    ensures
        left.max_events == max_events,
        action matches ReadAction::Return(messages) ==> stream::message_views(messages@)
            == gathered && left.messages@.len() == 0,
        action is Read ==> stream::message_views(left.messages@) == gathered,
        gathered.len() >= max_events ==> action is Return,
        gathered.len() == 0 && max_events > 0 ==> action is Read,
{
}

/// A key column is taken from its first place in a row.
pub proof fn key_column_is_taken_from_its_first_place(
    list: Seq<Seq<char>>,
    name: Seq<char>,
    place: int,
    other: int,
)
    requires
        resume::first_place(list, name, place),
        resume::first_place(list, name, other),
    ensures
        place == other,
        0 <= place < list.len(),
        list[place] == name,
{
    if place < other {
        assert(list[place] != name);
    } else if other < place {
        assert(list[other] != name);
    }
}

} // verus!
