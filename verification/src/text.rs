//! Byte-to-text conversion for link targets and persisted paths.

use vstd::prelude::*;
use vstd::utf8::{decode_utf8, valid_utf8};

verus! {

/// Relies on std's String::from_utf8: it succeeds exactly on valid UTF-8
/// input, and returns the string those bytes encode.
#[verifier::external_body]
pub fn bytes_to_string(v: &Vec<u8>) -> (r: Option<String>)
    ensures
        r is Some <==> valid_utf8(v@),
        r matches Some(s) ==> s@ == decode_utf8(v@),
{
    match String::from_utf8(v.clone()) {
        Ok(s) => Some(s),
        Err(_) => None,
    }
}

} // verus!
