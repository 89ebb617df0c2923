//! The checksum that closes every frame.
use vstd::prelude::*;

verus! {

/// The CRC-32 of `data` as IEEE 802.3 defines it: reflected polynomial
/// `0xEDB88320`, initial value and final XOR `0xFFFFFFFF`.
pub uninterp spec fn crc32(data: Seq<u8>) -> u32;

/// Calls `crc32fast::hash`. Trusted: the result is the IEEE CRC-32 of the
/// bytes, which is what [`crc32`] names.
#[verifier::external_body]
pub(crate) fn crc(buf: &[u8]) -> (sum: u32)
    ensures
        sum == crc32(buf@),
{
    crc32fast::hash(buf)
}

} // verus!
