//! Hashing.

use crate::primitives::H256;
use vstd::prelude::*;

verus! {

/// The digest that `keccak_256` of the `sp-core` crate computes.
pub uninterp spec fn keccak_digest(data: Seq<u8>) -> Seq<u8>;

/// Calls `keccak_256` of the `sp-core` crate. The digest is named and not stated: it is the
/// Keccak-256 hash of the data.
#[verifier::external_body]
pub(crate) fn keccak_256(data: &[u8]) -> (digest: H256)
    ensures
        digest@ == keccak_digest(data@),
{
    H256(sp_core::keccak_256(data))
}

} // verus!
