//! SHA-1 digests, computed by the `sha1` crate.
use sha1::{Digest, Sha1};
use vstd::prelude::*;

verus! {

/// The SHA-1 digest of `data`.
pub uninterp spec fn sha1(data: Seq<u8>) -> Seq<u8>;

/// `Sha1::digest` from `sha1`: the 20-byte SHA-1 digest of `data`, a
/// function of the bytes alone.
#[verifier::external_body]
pub(crate) fn sha1_digest(data: &[u8]) -> (r: [u8; 20])
    ensures
        r@ == sha1(data@),
{
    Sha1::digest(data).into()
}

} // verus!
