//! SHA-256, which closes every transmission: the transmitter appends the
//! digest of the payload and the receiver checks it.

use vstd::prelude::*;

verus! {

/// The SHA-256 digest of `data`, as `sha2::Sha256` computes it.
pub uninterp spec fn spec_sha256(data: Seq<u8>) -> Seq<u8>;

/// The 32 bytes of the SHA-256 digest of `data`.
pub open spec fn sha256_digest(data: Seq<u8>) -> Seq<u8> {
    Seq::new(32, |i: int| spec_sha256(data)[i])
}

/// Calls `sha2::Sha256::digest(data)` and converts the 32-byte output array.
/// The digest is a function of the bytes alone; that, and its length, is all
/// the contract claims.
#[verifier::external_body]
fn sha256_raw(data: &[u8]) -> (d: [u8; 32])
    ensures
        d@ == spec_sha256(data@),
{
    <sha2::Sha256 as sha2::Digest>::digest(data).into()
}

/// SHA-256 of `data`.
pub fn sha256(data: &[u8]) -> (d: [u8; 32])
    ensures
        d@ == sha256_digest(data@),
{
    let d = sha256_raw(data);
    assert(d@ =~= sha256_digest(data@));
    d
}

} // verus!
