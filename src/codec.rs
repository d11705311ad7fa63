//! Encoding of persisted 64-bit metadata values.
use crate::hashing::{from_le64, le64};
use vstd::prelude::*;

verus! {

#[verifier::external_type_specification]
#[verifier::external_body]
pub struct ExErrorKind(bincode::ErrorKind);

/// Relies on bincode::serialize with its default options (fixed-width,
/// little-endian integers, no size limit): a `u64` is written as its eight
/// little-endian bytes into a fresh `Vec`, which cannot fail.
#[verifier::external_body]
pub(crate) fn encode_u64(v: u64) -> (r: Result<Vec<u8>, Box<bincode::ErrorKind>>)
    ensures
        r is Ok,
        r matches Ok(b) ==> b@ == le64(v),
{
    bincode::serialize(&v)
}

/// Relies on bincode::deserialize::<u64> with its default options: the first
/// eight bytes are read little-endian and trailing bytes are allowed; fewer
/// than eight bytes is an error.
#[verifier::external_body]
pub(crate) fn decode_u64(b: &[u8]) -> (r: Result<u64, Box<bincode::ErrorKind>>)
    ensures
        r is Ok <==> b@.len() >= 8,
        r matches Ok(v) ==> v == from_le64(b@),
{
    bincode::deserialize::<u64>(b)
}

/// The value stored in a persisted 64-bit record, if the record is long
/// enough to hold one.
pub open spec fn decoded(b: Seq<u8>) -> Option<u64> {
    if b.len() >= 8 {
        Some(from_le64(b))
    } else {
        None
    }
}

/// Reads a persisted 64-bit record.
pub fn read_u64(b: &[u8]) -> (r: Option<u64>)
    ensures
        r == decoded(b@),
{
    match decode_u64(b) {
        Ok(v) => Some(v),
        Err(_) => None,
    }
}

/// Writes a persisted 64-bit record.
pub fn write_u64(v: u64) -> (r: Vec<u8>)
    ensures
        r@ == le64(v),
        decoded(r@) == Some(v),
{
    proof {
        lemma_le64_round_trip(v);
    }
    match encode_u64(v) {
        Ok(b) => b,
        Err(_) => Vec::new(),
    }
}

/// Decoding the little-endian bytes of a value gives the value back.
pub proof fn lemma_le64_round_trip(v: u64)
    ensures
        from_le64(le64(v)) == v,
        decoded(le64(v)) == Some(v),
{
    let b = le64(v);
    let (b0, b1, b2, b3) = (b[0], b[1], b[2], b[3]);
    let (b4, b5, b6, b7) = (b[4], b[5], b[6], b[7]);
    assert(((b0 as u64) | ((b1 as u64) << 8u64) | ((b2 as u64) << 16u64) | ((b3 as u64) << 24u64)
        | ((b4 as u64) << 32u64) | ((b5 as u64) << 40u64) | ((b6 as u64) << 48u64) | ((
    b7 as u64) << 56u64)) == v) by (bit_vector)
        requires
            b0 == v as u8,
            b1 == (v >> 8u64) as u8,
            b2 == (v >> 16u64) as u8,
            b3 == (v >> 24u64) as u8,
            b4 == (v >> 32u64) as u8,
            b5 == (v >> 40u64) as u8,
            b6 == (v >> 48u64) as u8,
            b7 == (v >> 56u64) as u8,
    ;
}

} // verus!
