//! How numbers and bytes are written: digit by digit, and so that they can be read back.
use vstd::prelude::*;
use crate::base64_text;
use crate::bytes;
use crate::text;

verus! {

// Numbers

/// A number is written digit by digit: one of a single digit is that digit, and every other is what
/// its higher digits are, followed by its lowest. Digits are `0` to `9` and then `A` on.
pub proof fn numbers_are_written_digit_by_digit(value: nat)
    ensures
        value < 10 ==> text::decimal_text(value) == seq![(48 + value) as char],
        value >= 10 ==> text::decimal_text(value) == text::decimal_text(value / 10)
            + text::decimal_text(value % 10),
        value < 10 ==> text::in_base(value, 16) == seq![(48 + value) as char],
        10 <= value < 16 ==> text::in_base(value, 16) == seq![(55 + value) as char],
        value >= 16 ==> text::in_base(value, 16) == text::in_base(value / 16, 16) + text::in_base(
            value % 16,
            16,
        ),
{
    assert(value % 10 < 10 && value % 16 < 16);
    if value >= 10 {
        assert(text::decimal_text(value) =~= text::decimal_text(value / 10) + text::decimal_text(
            value % 10,
        ));
    }
    if value >= 16 {
        assert(text::in_base(value, 16) =~= text::in_base(value / 16, 16) + text::in_base(
            value % 16,
            16,
        ));
    }
}

/// A number that is written in a width is written with as many digits, the lowest last, whatever
/// zeros that takes.
pub proof fn padded_numbers_fill_their_width(value: nat, width: nat)
    ensures
        text::padded(value, 16, width).len() == width,
        width > 0 ==> text::padded(value, 16, width) == text::padded(
            value / 16,
            16,
            (width - 1) as nat,
        ) + text::in_base(value % 16, 16),
    decreases width,
{
    assert(value % 16 < 16);
    if width > 0 {
        padded_numbers_fill_their_width(value / 16, (width - 1) as nat);
        assert(text::padded(value, 16, width) =~= text::padded(
            value / 16,
            16,
            (width - 1) as nat,
        ) + text::in_base(value % 16, 16));
    }
}

/// The value of a hexadecimal digit in lower case.
pub open spec fn hex_value(c: char) -> int {
    if '0' <= c <= '9' {
        c as int - 48
    } else {
        c as int - 87
    }
}

/// A byte is written as two hexadecimal digits in lower case, the higher one first.
pub proof fn byte_reads_back_from_its_digits(byte: u8)
    ensures
        text::hex_pair(byte).len() == 2,
        forall|i: int|
            0 <= i < 2 ==> ('0' <= #[trigger] text::hex_pair(byte)[i] <= '9' || 'a'
                <= text::hex_pair(byte)[i] <= 'f'),
        byte as int == 16 * hex_value(text::hex_pair(byte)[0]) + hex_value(
            text::hex_pair(byte)[1],
        ),
{
    reveal_with_fuel(text::padded, 3);
    let n = byte as nat;
    let pair = text::padded(n, 16, 2);
    assert(pair =~= seq![text::digit((n / 16) % 16), text::digit(n % 16)]);
    assert(n / 16 < 16);
    assert((n / 16) % 16 == n / 16);
    assert(n == 16 * (n / 16) + n % 16);
}

/// A number's bytes, the least significant first, are its lowest byte and the bytes of the rest.
pub proof fn little_endian_starts_with_the_lowest_byte(low: u8, rest: Seq<u8>)
    ensures
        bytes::little_endian(Seq::empty()) == 0,
        bytes::little_endian(seq![low] + rest) == low as nat + 256 * bytes::little_endian(rest),
{
    let all = seq![low] + rest;
    assert(Seq::<u8>::empty().reverse() =~= Seq::<u8>::empty());
    assert(all.reverse().drop_last() =~= rest.reverse());
    assert(all.reverse().last() == low);
}

// Base64

/// The value of a base64 digit.
pub open spec fn base64_value(c: char) -> int {
    if 'A' <= c <= 'Z' {
        c as int - 65
    } else if 'a' <= c <= 'z' {
        c as int - 71
    } else if '0' <= c <= '9' {
        c as int + 4
    } else if c == '+' {
        62
    } else {
        63
    }
}

proof fn lemma_base64_digit(value: nat)
    requires
        value < 64,
    ensures
        base64_value(base64_text::base64_digit(value)) == value,
        base64_text::base64_digit(value) != '=',
{
}

/// Bytes read back from their base64 text: four characters for each three bytes, in order, of six
/// bits each. One byte at the end takes two digits and two signs of padding, two bytes three digits
/// and one.
pub proof fn bytes_read_back_from_base64(data: Seq<u8>)
    ensures
        base64_text::base64_text(data).len() == 4 * ((data.len() + 2) / 3),
        data.len() == 0 ==> base64_text::base64_text(data).len() == 0,
        data.len() >= 3 ==> ({
            let shown = base64_text::base64_text(data);
            &&& 65536 * data[0] + 256 * data[1] + data[2] == 262144 * base64_value(shown[0]) + 4096
                * base64_value(shown[1]) + 64 * base64_value(shown[2]) + base64_value(shown[3])
            &&& shown[0] != '=' && shown[1] != '=' && shown[2] != '=' && shown[3] != '='
            &&& shown.skip(4) == base64_text::base64_text(data.skip(3))
        }),
        data.len() == 2 ==> ({
            let shown = base64_text::base64_text(data);
            &&& 1024 * data[0] + 4 * data[1] == 4096 * base64_value(shown[0]) + 64 * base64_value(
                shown[1],
            ) + base64_value(shown[2])
            &&& shown[3] == '='
        }),
        data.len() == 1 ==> ({
            let shown = base64_text::base64_text(data);
            &&& 16 * data[0] == 64 * base64_value(shown[0]) + base64_value(shown[1])
            &&& shown[2] == '=' && shown[3] == '='
        }),
    decreases data.len(),
{
    if data.len() > 0 {
        let a = data[0] as nat;
        let b = if data.len() > 1 {
            data[1] as nat
        } else {
            0
        };
        let c = if data.len() > 2 {
            data[2] as nat
        } else {
            0
        };
        lemma_base64_digit(a / 4);
        lemma_base64_digit((a % 4) * 16 + b / 16);
        lemma_base64_digit((b % 16) * 4 + c / 64);
        lemma_base64_digit(c % 64);
        if data.len() > 3 {
            bytes_read_back_from_base64(data.skip(3));
        }
        if data.len() >= 3 {
            assert(base64_text::base64_text(data).skip(4) =~= base64_text::base64_text(
                data.skip(3),
            ));
        }
    }
}

/// A number is read digit by digit, in whatever case its digits come: a single digit is its value,
/// and every digit more takes what came before it up by one place. What is no digit of the base
/// makes no number, and neither does nothing at all.
pub proof fn numbers_are_read_digit_by_digit(before: Seq<char>, c: char, base: nat)
    requires
        base == 10 || base == 16,
    ensures
        text::number_in(Seq::empty(), base) is None,
        ({
            let value: int = if '0' <= c <= '9' {
                c as int - 48
            } else if 'A' <= c <= 'F' {
                c as int - 55
            } else if 'a' <= c <= 'f' {
                c as int - 87
            } else {
                16
            };
            &&& value >= base ==> text::number_in(before.push(c), base) is None
            &&& value < base && before.len() == 0 ==> text::number_in(before.push(c), base)
                == Some(value as nat)
            &&& value < base && before.len() > 0 ==> (match text::number_in(before, base) {
                Some(high) => text::number_in(before.push(c), base) == Some(
                    (base * high + value) as nat,
                ),
                None => text::number_in(before.push(c), base) is None,
            })
        }),
{
    let whole = before.push(c);
    assert(whole.drop_last() =~= before);
    assert(whole.last() == c);
    if before.len() > 0 {
        if let Some(high) = text::number_in(before, base) {
            assert(base * high == high * base) by (nonlinear_arith);
        }
    }
}

/// A number is read into 64 bits exactly where it fits.
pub proof fn numbers_are_read_where_they_fit(source: Seq<char>, base: nat)
    ensures
        text::u64_in(source, base) is Some <==> (text::number_in(source, base) matches Some(n) && n
            <= 0xffff_ffff_ffff_ffff),
        text::u64_in(source, base) matches Some(n) ==> text::number_in(source, base) == Some(
            n as nat,
        ),
{
}

// White space and lists

/// Of the ASCII characters, white space is the blank, the tab, and the line and page breaks; outside
/// ASCII it is the characters that Unicode counts as such.
pub proof fn white_space_is_what_unicode_counts(c: char)
    ensures
        (c as nat) < 128 ==> (text::is_space(c) <==> (c == ' ' || c == '\t' || c == '\n' || c
            == '\r' || c as nat == 11 || c as nat == 12)),
        (c as nat) >= 128 ==> (text::is_space(c) <==> (c as nat == 0x85 || c as nat == 0xA0 || c
            as nat == 0x1680 || 0x2000 <= c as nat <= 0x200A || c as nat == 0x2028 || c as nat
            == 0x2029 || c as nat == 0x202F || c as nat == 0x205F || c as nat == 0x3000)),
{
}

/// Trimming takes away the white space around a text, all of it, and nothing else.
pub proof fn trimming_takes_the_white_space_around(
    lead: Seq<char>,
    core: Seq<char>,
    tail: Seq<char>,
)
    requires
        forall|i: int| 0 <= i < lead.len() ==> text::is_space(#[trigger] lead[i]),
        forall|i: int| 0 <= i < tail.len() ==> text::is_space(#[trigger] tail[i]),
        core.len() > 0,
        !text::is_space(core[0]),
        !text::is_space(core.last()),
    ensures
        text::trimmed(lead + core + tail) == core,
    decreases lead.len() + tail.len(),
{
    let whole = lead + core + tail;
    if lead.len() > 0 {
        let less = lead.drop_first();
        assert forall|i: int| 0 <= i < less.len() implies text::is_space(#[trigger] less[i]) by {
            assert(lead[i + 1] == less[i]);
        }
        trimming_takes_the_white_space_around(less, core, tail);
        assert(whole.drop_first() =~= less + core + tail);
        assert(whole[0] == lead[0]);
    } else {
        assert(whole =~= core + tail);
        assert(whole[0] == core[0]);
        lemma_trim_tail(core, tail);
    }
}

proof fn lemma_trim_tail(core: Seq<char>, tail: Seq<char>)
    requires
        forall|i: int| 0 <= i < tail.len() ==> text::is_space(#[trigger] tail[i]),
        core.len() > 0,
        !text::is_space(core.last()),
    ensures
        text::trim_end(core + tail) == core,
    decreases tail.len(),
{
    let whole = core + tail;
    if tail.len() > 0 {
        let less = tail.drop_last();
        assert forall|i: int| 0 <= i < less.len() implies text::is_space(#[trigger] less[i]) by {
            assert(tail[i] == less[i]);
        }
        lemma_trim_tail(core, less);
        assert(whole.drop_last() =~= core + less);
        assert(whole.last() == tail[tail.len() - 1]);
    } else {
        assert(whole =~= core);
    }
}

/// Texts are joined in order with the separator between each two, and parted at it again.
pub proof fn joined_texts_part_again(parts: Seq<Seq<char>>, separator: char)
    requires
        parts.len() > 0,
        forall|i: int| 0 <= i < parts.len() ==> !(#[trigger] parts[i]).contains(separator),
    ensures
        text::split(text::joined(parts, seq![separator]), separator) == parts,
    decreases parts.len(),
{
    if parts.len() == 1 {
        assert(!parts[0].contains(separator));
        text::split_without_separator(parts[0], separator);
        assert(parts =~= seq![parts[0]]);
    } else {
        let less = parts.drop_last();
        assert forall|i: int| 0 <= i < less.len() implies !(#[trigger] less[i]).contains(
            separator,
        ) by {
            assert(parts[i] == less[i]);
        }
        joined_texts_part_again(less, separator);
        assert(!parts[parts.len() - 1].contains(separator));
        text::split_after_separator(text::joined(less, seq![separator]), separator, parts.last());
        assert(less.push(parts.last()) =~= parts);
    }
}

} // verus!
