//! Bytes that may or may not be text.
use vstd::prelude::*;

verus! {

/// `std::str::from_utf8`: the text that the bytes encode, exactly where they are valid UTF-8.
#[verifier::external_body]
pub(crate) fn decode(bytes: &[u8]) -> (found: Option<String>)
    ensures
        match found {
            Some(found) => vstd::utf8::valid_utf8(bytes@) && found@ == vstd::utf8::decode_utf8(
                bytes@,
            ),
            None => !vstd::utf8::valid_utf8(bytes@),
        },
{
    std::str::from_utf8(bytes).ok().map(|found| found.to_string())
}

} // verus!
