//! The 128-bit BLAKE2b digest from `sp_io`.

use vstd::prelude::*;

verus! {

/// The 128-bit BLAKE2b digest of a byte string, as `sp_io::hashing::blake2_128`
/// computes it. Nothing here says which bytes it gives: only that it depends
/// on the input bytes alone.
pub uninterp spec fn blake2_128_digest(data: Seq<u8>) -> Seq<u8>;

/// Calls `sp_io::hashing::blake2_128`. The contract claims that the result
/// is the digest named `blake2_128_digest` of the bytes handed in, and
/// nothing more of its value.
#[verifier::external_body]
pub(crate) fn blake2_128(data: &[u8]) -> (digest: [u8; 16])
    ensures
        digest@ == blake2_128_digest(data@),
{
    sp_io::hashing::blake2_128(data)
}

} // verus!
