//! Places in PostgreSQL's write-ahead log, and its clock.
use vstd::prelude::*;
use crate::error::Error;
use crate::text;

verus! {

/// The text of a place in the log: the high and the low half in hexadecimal, the low one padded.
pub open spec fn lsn_text(lsn: u64) -> Seq<char> {
    text::in_base((lsn / 0x1_0000_0000) as nat, 16) + "/"@ + text::padded(
        (lsn % 0x1_0000_0000) as nat,
        16,
        8,
    )
}

/// The place in the log that a text names: two halves of at most 32 bits each, in hexadecimal,
/// with a slash between them.
pub open spec fn lsn_in(source: Seq<char>) -> Option<u64> {
    let parts = text::split(source, '/');
    if parts.len() == 2 {
        match (text::u64_in(parts[0], 16), text::u64_in(parts[1], 16)) {
            (Some(high), Some(low)) => if high <= u32::MAX && low <= u32::MAX {
                Some((high * 0x1_0000_0000 + low) as u64)
            } else {
                None
            },
            _ => None,
        }
    } else {
        None
    }
}

/// The text of a place in the log; see [`lsn_text`].
pub fn format_pg_lsn(lsn: u64) -> (out: String)
    ensures
        out@ == lsn_text(lsn),
{
    text::join3(
        text::hex(lsn / 0x1_0000_0000).as_str(),
        "/",
        text::hex_padded(lsn % 0x1_0000_0000, 8).as_str(),
    )
}

/// The place in the log that a text names; see [`lsn_in`].
pub fn parse_pg_lsn(source: &str) -> (lsn: Result<u64, Error>)
    ensures
        match lsn {
            Ok(lsn) => lsn_in(source@) == Some(lsn),
            Err(error) => lsn_in(source@) is None && error is SourceError && error.text()
                == "invalid postgres LSN '"@ + source@ + "'"@,
        },
{
    let parts = text::split_on(source, '/');
    proof {
        assert(text::texts(parts@).len() == parts@.len());
    }
    if parts.len() == 2 {
        proof {
            assert(text::texts(parts@)[0] == parts@[0]@);
            assert(text::texts(parts@)[1] == parts@[1]@);
        }
        match (text::parse_hex(parts[0].as_str()), text::parse_hex(parts[1].as_str())) {
            (Some(high), Some(low)) => {
                if high <= 0xffff_ffff && low <= 0xffff_ffff {
                    return Ok(high * 0x1_0000_0000 + low);
                }
            },
            _ => {},
        }
    }
    Err(Error::SourceError(text::join3("invalid postgres LSN '", source, "'")))
}

spec fn hex_range(width: nat) -> nat
    decreases width,
{
    if width == 0 {
        1
    } else {
        16 * hex_range((width - 1) as nat)
    }
}

proof fn lemma_padded_reads_back(value: nat, width: nat)
    requires
        width >= 1,
        value < hex_range(width),
    ensures
        text::padded(value, 16, width).len() == width,
        text::number_in(text::padded(value, 16, width), 16) == Some(value),
    decreases width,
{
    let whole = text::padded(value, 16, width);
    let before = text::padded(value / 16, 16, (width - 1) as nat);
    assert(whole.last() == text::digit(value % 16));
    assert(whole.drop_last() =~= before);
    assert(text::digit_value(text::digit(value % 16)) == Some(value % 16));
    if width == 1 {
        assert(hex_range(0) == 1);
        assert(before =~= Seq::empty());
    } else {
        lemma_padded_reads_back(value / 16, (width - 1) as nat);
    }
}

proof fn lemma_no_slash_in_base(value: nat)
    ensures
        !text::in_base(value, 16).contains('/'),
    decreases value,
{
    let whole = text::in_base(value, 16);
    if value >= 16 {
        lemma_no_slash_in_base(value / 16);
        let before = text::in_base(value / 16, 16);
        assert forall|i: int| 0 <= i < whole.len() implies whole[i] != '/' by {
            if i < whole.len() - 1 {
                assert(whole[i] == before[i]);
                assert(before.contains(before[i]));
            }
        }
    }
}

proof fn lemma_no_slash_padded(value: nat, width: nat)
    ensures
        !text::padded(value, 16, width).contains('/'),
    decreases width,
{
    if width > 0 {
        lemma_no_slash_padded(value / 16, (width - 1) as nat);
        let whole = text::padded(value, 16, width);
        let before = text::padded(value / 16, 16, (width - 1) as nat);
        assert forall|i: int| 0 <= i < whole.len() implies whole[i] != '/' by {
            if i < whole.len() - 1 {
                assert(whole[i] == before[i]);
                assert(before.contains(before[i]));
            }
        }
    }
}

/// A place in the log reads back from its text.
pub proof fn lsn_reads_back(lsn: u64)
    ensures
        lsn_in(lsn_text(lsn)) == Some(lsn),
{
    let high = (lsn / 0x1_0000_0000) as nat;
    let low = (lsn % 0x1_0000_0000) as nat;
    reveal_strlit("/");
    assert("/"@ =~= seq!['/']);
    text::number_round_trip(high, 16);
    reveal_with_fuel(hex_range, 9);
    assert(hex_range(8) == 0x1_0000_0000);
    lemma_padded_reads_back(low, 8);
    lemma_no_slash_in_base(high);
    lemma_no_slash_padded(low, 8);
    text::split_without_separator(text::in_base(high, 16), '/');
    text::split_after_separator(text::in_base(high, 16), '/', text::padded(low, 16, 8));
    let parts = text::split(lsn_text(lsn), '/');
    assert(parts =~= seq![text::in_base(high, 16), text::padded(low, 16, 8)]);
    assert(high * 0x1_0000_0000 + low == lsn);
}

/// Two places in the log have the same text only where they are the same.
pub proof fn lsn_texts_differ(a: u64, b: u64)
    requires
        lsn_text(a) == lsn_text(b),
    ensures
        a == b,
{
    lsn_reads_back(a);
    lsn_reads_back(b);
}

/// Unix milliseconds at PostgreSQL's epoch, the start of 2000.
pub const PG_EPOCH_MS: i64 = 946_684_800_000;

/// Unix milliseconds of a clock that counts microseconds since 2000, and no less than zero.
pub open spec fn unix_millis(pg_us: i64) -> u64 {
    let millis = (if pg_us >= 0 {
        pg_us as int / 1000
    } else {
        -((-pg_us) as int / 1000)
    }) + PG_EPOCH_MS;
    if millis < 0 {
        0
    } else {
        millis as u64
    }
}

/// Unix milliseconds of a PostgreSQL clock; see [`unix_millis`].
pub fn pg_timestamp_to_millis(pg_us: i64) -> (millis: u64)
    ensures
        millis == unix_millis(pg_us),
{
    if pg_us >= 0 {
        (pg_us as u64) / 1000 + 946_684_800_000
    } else {
        let back = (-(pg_us as i128)) as u128 / 1000;
        if back >= 946_684_800_000 {
            0
        } else {
            946_684_800_000 - back as u64
        }
    }
}

} // verus!
