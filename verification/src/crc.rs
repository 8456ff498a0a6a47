//! CRC-32/ISO-HDLC (the canonical CRC-32 used in PNG, zlib, Ethernet).

use vstd::prelude::*;

verus! {

/// The CRC-32/ISO-HDLC checksum of a byte sequence, as `crc32fast` computes it.
pub uninterp spec fn spec_crc32(bytes: Seq<u8>) -> u32;

/// Calls `crc32fast::hash`, which computes the CRC-32/ISO-HDLC checksum of
/// `bytes` in one pass; the checksum depends on the bytes alone, which is all
/// the contract claims.
#[verifier::external_body]
fn crc32fast_hash(bytes: &[u8]) -> (sum: u32)
    ensures
        sum == spec_crc32(bytes@),
{
    crc32fast::hash(bytes)
}

/// CRC-32 of `bytes`.
pub fn crc32(bytes: &[u8]) -> (sum: u32)
    ensures
        sum == spec_crc32(bytes@),
{
    crc32fast_hash(bytes)
}

} // verus!
