//! The cryptographic digest at the library's boundary.

use sha3::Digest;
use vstd::prelude::*;

verus! {

/// The 32-byte Keccak-256 digest of a byte string; the result depends on the
/// bytes alone.
pub uninterp spec fn keccak256_of(data: Seq<u8>) -> Seq<u8>;

/// Relies on sha3::Keccak256: a deterministic 32-byte digest of the input.
#[verifier::external_body]
pub(crate) fn keccak256(data: &Vec<u8>) -> (r: Vec<u8>)
    ensures
        r@ == keccak256_of(data@),
        r@.len() == 32,
{
    let mut hasher = sha3::Keccak256::new();
    hasher.update(data.as_slice());
    hasher.finalize().to_vec()
}

} // verus!
