//! Lossy UTF-8 decoding of received frames. The wire carries UTF-8 text;
//! whatever arrives is decoded, with invalid sequences replaced, and the
//! result is a function of the bytes alone.
use vstd::prelude::*;

use vstd::utf8::{decode_utf8, valid_utf8};

verus! {

/// What lossy UTF-8 decoding yields for an arbitrary byte sequence.
pub uninterp spec fn utf8_lossy(bytes: Seq<u8>) -> Seq<char>;

/// Relies on `String::from_utf8_lossy`: the result depends on the bytes
/// alone; valid UTF-8 decodes exactly as it was encoded, invalid sequences
/// come back with replacement characters.
#[verifier::external_body]
pub fn bytes_to_str(buff: &Vec<u8>) -> (r: String)
    ensures
        r@ == utf8_lossy(buff@),
        valid_utf8(buff@) ==> r@ == decode_utf8(buff@),
{
    (*String::from_utf8_lossy(&buff[..])).to_string()
}

} // verus!
