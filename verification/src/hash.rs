use vstd::prelude::*;
use sha2::{Digest, Sha256};

verus! {

/// The SHA-256 digest of `data`: the 32 bytes that the `sha2` crate
/// computes for it. Nothing is proved of the digest but that it depends on
/// the bytes alone.
pub uninterp spec fn sha256(data: Seq<u8>) -> Seq<u8>;

/// Hashes `data` with `sha2::Sha256::digest`, which feeds the bytes to a
/// fresh hasher and finalizes it. The contract is taken on trust: the
/// result is the digest that [`sha256`] names.
#[verifier::external_body]
pub(crate) fn sha256_digest(data: &[u8]) -> (digest: [u8; 32])
    ensures
        digest@ == sha256(data@),
{
    Sha256::digest(data).into()
}

} // verus!
