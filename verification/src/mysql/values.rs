//! Column values of the MySQL connector.
use vstd::prelude::*;
use crate::json;
use crate::json::Json;
use crate::text;
use crate::utf8;

verus! {

/// Bytes as lower-case hexadecimal digits, two each.
pub open spec fn hex_pairs(bytes: Seq<u8>) -> Seq<char>
    decreases bytes.len(),
{
    if bytes.len() == 0 {
        Seq::empty()
    } else {
        hex_pairs(bytes.drop_last()) + text::hex_pair(bytes.last())
    }
}

/// The payload of a column's bytes: their text where they are text, and hexadecimal digits where
/// they are not.
pub open spec fn bytes_json(bytes: Seq<u8>) -> Json {
    if vstd::utf8::valid_utf8(bytes) {
        Json::Text(vstd::utf8::decode_utf8(bytes))
    } else {
        Json::Text(hex_pairs(bytes))
    }
}

fn render_pairs(bytes: &[u8]) -> (out: String)
    ensures
        out@ == hex_pairs(bytes@),
{
    let size = bytes.len();
    let mut out = String::new();
    let mut i: usize = 0;
    proof {
        assert(bytes@.take(0) =~= Seq::empty());
    }
    while i < size
        invariant
            i <= size,
            size == bytes@.len(),
            out@ == hex_pairs(bytes@.take(i as int)),
        decreases size - i,
    {
        proof {
            assert(bytes@.take(i + 1).drop_last() =~= bytes@.take(i as int));
        }
        out.append(text::render_hex_pair(bytes[i]).as_str());
        i = i + 1;
    }
    proof {
        assert(bytes@.take(i as int) =~= bytes@);
    }
    out
}

/// The payload of a column's bytes; see [`bytes_json`].
pub fn mysql_value_to_json(bytes: &[u8]) -> (value: serde_json::Value)
    ensures
        json::json(value) == bytes_json(bytes@),
{
    match utf8::decode(bytes) {
        Some(found) => json::string(found),
        None => json::string(render_pairs(bytes)),
    }
}

// Labels

/// The text of an ENUM value: the value is the number of its label, counted from one, and zero
/// stands for the empty text that a server keeps in place of a value it refused.
pub open spec fn enum_text(labels: Seq<Seq<char>>, ordinal: int) -> Option<Seq<char>> {
    if ordinal == 0 {
        Some(Seq::empty())
    } else if 1 <= ordinal <= labels.len() {
        Some(labels[ordinal - 1])
    } else {
        None
    }
}

/// The text of an ENUM value; see [`enum_text`].
pub fn enum_label(labels: &Vec<String>, ordinal: i64) -> (label: Option<String>)
    ensures
        text::text_option(label) == enum_text(text::texts(labels@), ordinal as int),
{
    let count = labels.len();
    if ordinal == 0 {
        let none = String::new();
        proof {
            assert(none@ =~= Seq::empty());
        }
        Some(none)
    } else if ordinal >= 1 && ((ordinal - 1) as u64) < count as u64 {
        proof {
            assert(text::texts(labels@)[ordinal - 1] == labels@[ordinal - 1]@);
        }
        Some(labels[(ordinal - 1) as usize].clone())
    } else {
        None
    }
}

/// The most bytes that a SET value has.
pub const MAX_SET_BYTES: usize = 8;

/// Whether a member is in a SET value, whose bits stand for the members in order, the lowest bit
/// of the first byte for the first.
pub open spec fn holds(bits: Seq<u8>, member: int) -> bool {
    member / 8 < bits.len() && (bits[member / 8] >> ((member % 8) as u8)) & 1u8 == 1u8
}

/// The labels of the members of a SET value, in order.
pub open spec fn members_of(labels: Seq<Seq<char>>, bits: Seq<u8>) -> Seq<Seq<char>>
    decreases labels.len(),
{
    if labels.len() == 0 {
        Seq::empty()
    } else {
        let before = members_of(labels.drop_last(), bits);
        if holds(bits, labels.len() - 1) {
            before.push(labels.last())
        } else {
            before
        }
    }
}

/// Whether each member of a SET value has a label.
pub open spec fn labelled(count: int, bits: Seq<u8>) -> bool {
    &&& bits.len() <= MAX_SET_BYTES
    &&& forall|member: int| count <= member < 8 * bits.len() ==> !#[trigger] holds(bits, member)
}

/// The text of a SET value: its members' labels with commas between them. There is none where a
/// member has no label.
pub fn set_labels(labels: &Vec<String>, bits: &[u8]) -> (text: Option<String>)
    ensures
        text::text_option(text) == (if labelled(labels@.len() as int, bits@) {
            Some(text::joined(members_of(text::texts(labels@), bits@), ","@))
        } else {
            None
        }),
{
    let ghost names = text::texts(labels@);
    let width = bits.len();
    if width > MAX_SET_BYTES {
        return None;
    }
    let most = 8 * width;
    let count = labels.len();
    let mut found: Vec<String> = Vec::new();
    let mut member: usize = 0;
    proof {
        assert(names.take(0) =~= Seq::empty());
        assert(text::texts(found@) =~= Seq::empty());
    }
    while member < count
        invariant
            member <= count,
            count == labels@.len(),
            names == text::texts(labels@),
            width == bits@.len(),
            text::texts(found@) == members_of(names.take(member as int), bits@),
        decreases count - member,
    {
        proof {
            assert(names.take(member + 1).drop_last() =~= names.take(member as int));
            assert(names.take(member + 1).last() == labels@[member as int]@);
        }
        if member / 8 < width && (bits[member / 8] >> ((member % 8) as u8)) & 1u8 == 1u8 {
            let ghost before = text::texts(found@);
            let label = labels[member].clone();
            let ghost seen = label@;
            found.push(label);
            proof {
                assert(text::texts(found@) =~= before.push(seen));
            }
        }
        member = member + 1;
    }
    proof {
        assert(names.take(member as int) =~= names);
    }
    while member < most
        invariant
            count <= member,
            count == labels@.len(),
            width == bits@.len(),
            width <= MAX_SET_BYTES,
            most == 8 * width,
            forall|k: int| count <= k < member && k < most ==> !#[trigger] holds(bits@, k),
        decreases most - member,
    {
        if (bits[member / 8] >> ((member % 8) as u8)) & 1u8 == 1u8 {
            proof {
                assert(holds(bits@, member as int));
            }
            return None;
        }
        member = member + 1;
    }
    Some(text::join(&found, ","))
}

} // verus!
