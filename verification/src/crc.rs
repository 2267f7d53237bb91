use vstd::prelude::*;

verus! {

/// The CRC-32/IEEE checksum of a byte sequence, as computed by crc32fast.
pub uninterp spec fn crc32_of(bytes: Seq<u8>) -> u32;

/// Relies on crc32fast::hash: the CRC-32/IEEE checksum of exactly the
/// bytes given, a function of those bytes alone.
#[verifier::external_body]
pub(crate) fn crc32_hash(bytes: &[u8]) -> (r: u32)
    ensures
        r == crc32_of(bytes@),
{
    crc32fast::hash(bytes)
}

} // verus!
