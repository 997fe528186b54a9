//! Encoding of the record index, for the header image.
//!
//! The index is persisted as one MessagePack-encoded sequence of unsigned
//! 64-bit lengths, serialized whole, never entry by entry. The `rmp_serde`
//! crate does the encoding and decoding; the wrappers here state what its
//! functions return.

use vstd::prelude::*;

verus! {

/// The MessagePack encoding of a record index, as `rmp_serde::to_vec`
/// produces it: a function of the lengths alone.
pub uninterp spec fn header_encoding(h: Seq<u64>) -> Seq<u8>;

/// What `rmp_serde::from_slice` makes of a byte string: the record index it
/// decodes to, or nothing where the bytes are not such an encoding.
pub uninterp spec fn header_decoding(b: Seq<u8>) -> Option<Seq<u64>>;

/// Relies on `rmp_serde::encode::to_vec`: the MessagePack encoding of a value
/// depends on the value alone, and `rmp_serde::decode::from_slice` decodes
/// that encoding back to the value it came from. A MessagePack array header
/// carries a 32-bit element count, and the encoder truncates a larger count
/// to it, so only an index within that limit is admitted; within it, the
/// round trip is exact. Encoding unsigned integers into memory has one
/// failure, allocation exhaustion, on which this wrapper stops the program,
/// as an exhausted allocator anywhere else does.
#[verifier::external_body]
pub(crate) fn encode_header(h: &Vec<u64>) -> (r: Vec<u8>)
    requires
        h@.len() <= 0xFFFF_FFFF,
    ensures
        r@ == header_encoding(h@),
        header_decoding(r@) == Some(h@),
{
    rmp_serde::to_vec(h).expect("allocation failed while encoding the record index")
}

/// Relies on `rmp_serde::decode::from_slice`: what a byte string decodes to
/// depends on the bytes alone. It reads one value and fails where no
/// MessagePack sequence of unsigned 64-bit integers starts the bytes; bytes
/// after that one value are ignored.
#[verifier::external_body]
pub(crate) fn decode_header(b: &[u8]) -> (r: Option<Vec<u64>>)
    ensures
        r is Some <==> header_decoding(b@) is Some,
        r is Some ==> header_decoding(b@) == Some(r.unwrap()@),
{
    match rmp_serde::from_slice::<Vec<u64>>(b) {
        Ok(h) => Some(h),
        Err(_) => None,
    }
}

} // verus!
