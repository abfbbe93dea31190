//! Lossy decoding of bytes as UTF-8 text, which std does.

use vstd::prelude::*;
use vstd::utf8::{decode_utf8, valid_utf8};

verus! {

/// The text that lossy decoding makes of `bytes`: the characters that the
/// bytes encode in UTF-8, with U+FFFD in place of each part that is no valid
/// encoding.
pub uninterp spec fn utf8_lossy(bytes: Seq<u8>) -> Seq<char>;

/// Calls `String::from_utf8_lossy` of std and takes the text it gives as an
/// owned `String`. Trusted: the text depends on the bytes alone, and where
/// the bytes are valid UTF-8 it is the characters that they encode.
#[verifier::external_body]
pub(crate) fn decode_lossy(bytes: &[u8]) -> (text: String)
    ensures
        text@ == utf8_lossy(bytes@),
        valid_utf8(bytes@) ==> text@ == decode_utf8(bytes@),
{
    String::from_utf8_lossy(bytes).into_owned()
}

} // verus!
