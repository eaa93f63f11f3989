//! The BLAKE2b hash function, called from the `blake2` crate.

use vstd::prelude::*;

verus! {

/// The 64-byte BLAKE2b-512 digest of `message`.
pub uninterp spec fn blake2b_512(message: Seq<u8>) -> Seq<u8>;

/// The 32-byte BLAKE2b-256 digest of `message`.
pub uninterp spec fn blake2b_256(message: Seq<u8>) -> Seq<u8>;

/// Calls `blake2::Blake2b512::digest`. Trusted: the result is the
/// BLAKE2b-512 digest of the message, a function of the message alone.
#[verifier::external_body]
pub(crate) fn blake2b_512_digest(message: &[u8]) -> (digest: [u8; 64])
    ensures
        digest@ == blake2b_512(message@),
{
    <blake2::Blake2b512 as blake2::Digest>::digest(message).into()
}

/// Calls `blake2::Blake2b::<U32>::digest`. Trusted: the result is the
/// BLAKE2b-256 digest of the message, a function of the message alone.
#[verifier::external_body]
pub(crate) fn blake2b_256_digest(message: &[u8]) -> (digest: [u8; 32])
    ensures
        digest@ == blake2b_256(message@),
{
    <blake2::Blake2b<blake2::digest::consts::U32> as blake2::Digest>::digest(message).into()
}

} // verus!
