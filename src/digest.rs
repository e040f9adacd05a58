//! Keccak-256, through the Solana program library.
use vstd::prelude::*;

verus! {

/// The Keccak-256 digest of a byte string.
pub uninterp spec fn keccak256(data: Seq<u8>) -> Seq<u8>;

/// Relies on solana_program::keccak::hash: the Keccak-256 digest of `data`,
/// whose 32 bytes it returns as they are.
#[verifier::external_body]
pub(crate) fn keccak_digest(data: &Vec<u8>) -> (r: [u8; 32])
    ensures
        r@ == keccak256(data@),
{
    solana_program::keccak::hash(data.as_slice()).0
}

} // verus!
