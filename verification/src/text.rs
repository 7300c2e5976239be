//! Conversion of wire bytes into display text.

use vstd::prelude::*;
use vstd::utf8::{decode_utf8, valid_utf8};

verus! {

/// The characters that `String::from_utf8_lossy` decodes from `bytes`, with each
/// invalid sequence replaced by U+FFFD.
pub uninterp spec fn utf8_lossy(bytes: Seq<u8>) -> Seq<char>;

/// The text that wire bytes stand for: their UTF-8 decoding when they are
/// valid UTF-8, and otherwise their lossy decoding.
pub open spec fn decoded_text(bytes: Seq<u8>) -> Seq<char> {
    if valid_utf8(bytes) {
        decode_utf8(bytes)
    } else {
        utf8_lossy(bytes)
    }
}

/// Decode bytes as UTF-8, replacing invalid sequences, by calling
/// `String::from_utf8_lossy` and taking ownership of the result.
///
/// Trusted: the result is named [`utf8_lossy`] of the input, and on valid UTF-8
/// it is the decoded text, as the std documentation states. How invalid
/// sequences are replaced is not stated.
#[verifier::external_body]
pub(crate) fn string_from_utf8_lossy(bytes: &[u8]) -> (s: String)
    ensures
        s@ == utf8_lossy(bytes@),
        valid_utf8(bytes@) ==> s@ == decode_utf8(bytes@),
{
    String::from_utf8_lossy(bytes).into_owned()
}

} // verus!
