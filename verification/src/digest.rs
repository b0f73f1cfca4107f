//! SHA-256, as the `sha2` crate computes it.
use sha2::Digest;
use sha2::Sha256;
use vstd::prelude::*;

verus! {

/// The SHA-256 digest of `msg`.
pub uninterp spec fn sha256_of(msg: Seq<u8>) -> Seq<u8>;

/// `sha2::Sha256::digest`: trusted to return the SHA-256 digest of `msg`,
/// a value that depends on the bytes of `msg` alone.
#[verifier::external_body]
pub(crate) fn sha256(msg: &[u8]) -> (d: [u8; 32])
    ensures
        d@ == sha256_of(msg@),
{
    Sha256::digest(msg).into()
}

} // verus!
