//! Content hashing: every container and document is addressed by the
//! SHA-256 digest of its payload bytes.

use vstd::prelude::*;
use sha2::Digest;
use sha2::Sha256;

verus! {

/// The SHA-256 digest of a byte sequence.  The algorithm itself is not
/// modelled; the crate relies only on the digest being a function of the
/// input bytes and being 32 bytes long.
pub uninterp spec fn sha256_of(data: Seq<u8>) -> Seq<u8>;

/// Relies on sha2's Sha256 (update then finalize): the digest depends on
/// the input bytes alone and is exactly 32 bytes.
#[verifier::external_body]
pub fn sha256(data: &[u8]) -> (r: [u8; 32])
    ensures
        r@ == sha256_of(data@),
        r@.len() == 32,
{
    let mut hasher = Sha256::new();
    hasher.update(data);
    hasher.finalize().into()
}

} // verus!
