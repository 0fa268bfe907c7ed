use vstd::prelude::*;

use crate::error::Error;

verus! {

/// The JSON text that a value encodes to.
pub uninterp spec fn json_bytes_of(v: u64) -> Seq<u8>;

/// The value that a byte sequence parses to as a JSON u64, if it is one.
pub uninterp spec fn u64_of_json(bytes: Seq<u8>) -> Option<u64>;

/// Relies on serde_json::to_vec: a u64 encodes to its JSON text, the call
/// never fails for an integer, and serde_json::from_slice parses the text
/// it produced back to the same value.
#[verifier::external_body]
pub(crate) fn encode_u64(v: u64) -> (r: Vec<u8>)
    ensures
        r@ == json_bytes_of(v),
        u64_of_json(r@) == Some(v),
{
    serde_json::to_vec(&v).unwrap()
}

/// Relies on serde_json::from_slice: what a byte sequence parses to as a
/// JSON u64 depends on the bytes alone; the parse succeeds exactly when the
/// bytes are such a document.
#[verifier::external_body]
pub(crate) fn decode_u64(bytes: &Vec<u8>) -> (r: Result<u64, Error>)
    ensures
        r matches Ok(v) ==> u64_of_json(bytes@) == Some(v),
        r matches Err(e) ==> e is Serde && u64_of_json(bytes@) is None,
{
    match serde_json::from_slice(bytes) {
        Ok(v) => Ok(v),
        Err(e) => Err(Error::Serde(format!("{}", e))),
    }
}

/// Law (round trip): decoding the encoding of a value yields that value.
/// Executable so that the two codec calls are exercised end to end.
pub fn encode_decode(v: u64) -> (r: Option<u64>)
    ensures
        r == Some(v),
{
    let bytes = encode_u64(v);
    match decode_u64(&bytes) {
        Ok(x) => Some(x),
        Err(_) => None,
    }
}

} // verus!
