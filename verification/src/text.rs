//! Decoding payload bytes as text.
//!
//! Text payloads must be valid UTF-8; anything else is a decode failure,
//! never a transport one.

use vstd::prelude::*;
use vstd::utf8::{decode_utf8, valid_utf8};

verus! {

/// Relies on `String::from_utf8`: it succeeds exactly on the byte sequences
/// that are valid UTF-8, and decodes them per the UTF-8 standard — which is
/// what vstd's `valid_utf8` and `decode_utf8` state.
#[verifier::external_body]
pub(crate) fn decode_text(bytes: Vec<u8>) -> (r: Option<String>)
    ensures
        r is Some <==> valid_utf8(bytes@),
        r matches Some(s) ==> s@ == decode_utf8(bytes@),
{
    String::from_utf8(bytes).ok()
}

} // verus!
