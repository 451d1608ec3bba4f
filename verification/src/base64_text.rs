//! Bytes as base64 text.
use base64::Engine;
use vstd::prelude::*;

verus! {

/// A digit of the standard base64 alphabet.
pub open spec fn base64_digit(value: nat) -> char {
    if value < 26 {
        (value + 65) as char
    } else if value < 52 {
        (value + 71) as char
    } else if value < 62 {
        (value - 4) as char
    } else if value == 62 {
        '+'
    } else {
        '/'
    }
}

/// Bytes in standard base64: four digits for three bytes, and padding at the end.
pub open spec fn base64_text(bytes: Seq<u8>) -> Seq<char>
    decreases bytes.len(),
{
    if bytes.len() == 0 {
        Seq::empty()
    } else {
        let a = bytes[0] as nat;
        let b = if bytes.len() > 1 {
            bytes[1] as nat
        } else {
            0
        };
        let c = if bytes.len() > 2 {
            bytes[2] as nat
        } else {
            0
        };
        let first = base64_digit(a / 4);
        let second = base64_digit((a % 4) * 16 + b / 16);
        let third = if bytes.len() > 1 {
            base64_digit((b % 16) * 4 + c / 64)
        } else {
            '='
        };
        let fourth = if bytes.len() > 2 {
            base64_digit(c % 64)
        } else {
            '='
        };
        let rest = if bytes.len() > 3 {
            base64_text(bytes.skip(3))
        } else {
            Seq::empty()
        };
        seq![first, second, third, fourth] + rest
    }
}

/// `base64`'s `STANDARD` engine encodes with the standard alphabet and padding. Its text must fit
/// the machine, so that the bytes are held to what a log message can carry.
#[verifier::external_body]
pub(crate) fn encode(bytes: &[u8]) -> (out: String)
    requires
        bytes@.len() <= 0x7fff_ffff,
    ensures
        out@ == base64_text(bytes@),
{
    base64::engine::general_purpose::STANDARD.encode(bytes)
}

} // verus!
