//! SHA-256, as computed by the `sha2` crate, and the double hash built from it.
use vstd::prelude::*;
use sha2::Digest;

verus! {

/// The SHA-256 digest of a byte string (FIPS 180-4), as `sha2::Sha256` computes it.
pub uninterp spec fn sha256_of(data: Seq<u8>) -> Seq<u8>;

/// Calls `sha2::Sha256::digest`. Trusted: the result is the 32-byte SHA-256 of
/// `data`, named `sha256_of`; hashing the concatenation of several `update`
/// calls equals hashing their concatenation in one call, which the callers use
/// by hashing the concatenated preimage.
#[verifier::external_body]
pub(crate) fn sha256(data: &[u8]) -> (d: [u8; 32])
    ensures
        d@ == sha256_of(data@),
{
    sha2::Sha256::digest(data).into()
}

/// SHA-256 applied twice.
pub fn sha256d(data: &[u8]) -> (d: [u8; 32])
    ensures
        d@ == sha256_of(sha256_of(data@)),
{
    let first = sha256(data);
    sha256(first.as_slice())
}

} // verus!
