use vstd::prelude::*;
use vstd::utf8::{decode_utf8, valid_utf8};

verus! {

/// The text that `bytes` encode in UTF-8, or `fallback` when they are not valid UTF-8.
pub open spec fn text_or(bytes: Seq<u8>, fallback: Seq<char>) -> Seq<char> {
    if valid_utf8(bytes) {
        decode_utf8(bytes)
    } else {
        fallback
    }
}

/// Trusted: `String::from_utf8`. Its documentation says that it succeeds exactly
/// when the bytes are valid UTF-8, and that the string then holds the characters
/// they encode; the contract says that, with vstd's definition of UTF-8.
#[verifier::external_body]
pub(crate) fn string_from_utf8(bytes: Vec<u8>) -> (text: Option<String>)
    ensures
        text is Some <==> valid_utf8(bytes@),
        text matches Some(s) ==> s@ == decode_utf8(bytes@),
{
    String::from_utf8(bytes).ok()
}

/// Decodes `bytes` as UTF-8, or gives `fallback` when they are not valid UTF-8.
pub fn decode_text_or(bytes: &[u8], fallback: &str) -> (text: String)
    ensures
        text@ == text_or(bytes@, fallback@),
{
    let owned = vstd::slice::slice_to_vec(bytes);
    match string_from_utf8(owned) {
        Some(s) => s,
        None => String::from_str(fallback),
    }
}

} // verus!
