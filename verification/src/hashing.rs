//! The cryptographic hash gating escrow redemption.

use vstd::prelude::*;

verus! {

/// The SHA-256 digest of a byte sequence.
pub uninterp spec fn sha256_of(input: Seq<u8>) -> Seq<u8>;

/// Relies on sha2::Sha256: the 32-byte SHA-256 digest of the input, a
/// function of the input bytes alone.
#[verifier::external_body]
pub(crate) fn sha2_256(input: &[u8]) -> (r: [u8; 32])
    ensures
        r@ == sha256_of(input@),
{
    let digest: [u8; 32] = <sha2::Sha256 as sha2::Digest>::digest(input).into();
    digest
}

} // verus!
