//! Pedersen commitments and the values that a ring signature carries.

use vstd::prelude::*;
use vstd::string::StringSliceAdditionalSpecFns;
use crate::domain_separators::HASH_TO_POINT_DOMAIN_TAG;
use crate::encoding::join_bytes;
use crate::hashes::{blake2b_512, blake2b_512_digest};
use crate::ristretto::{
    basepoint_encoding, ristretto_add, ristretto_from_uniform_bytes, ristretto_mul,
    RistrettoPublic,
};
use crate::scalar::Scalar;

verus! {

/// The encoding of the generator `H` that blindings multiply: the group
/// element that the tagged hash of the base point `G` is mapped to.
pub open spec fn blinding_generator_encoding() -> Seq<u8> {
    ristretto_from_uniform_bytes(
        blake2b_512(HASH_TO_POINT_DOMAIN_TAG.spec_bytes() + basepoint_encoding()),
    )
}

/// The encoding of the Pedersen commitment `value * G + blinding * H`.
pub open spec fn pedersen_commitment(value: nat, blinding: nat) -> Seq<u8> {
    ristretto_add(
        ristretto_mul(value, basepoint_encoding()),
        ristretto_mul(blinding, blinding_generator_encoding()),
    )
}

/// The generator `G` that values multiply: the base point.
pub fn value_generator() -> (g: RistrettoPublic)
    ensures
        g@ == basepoint_encoding(),
{
    RistrettoPublic::basepoint()
}

/// The generator `H` that blindings multiply.
pub fn blinding_generator() -> (h: RistrettoPublic)
    ensures
        h@ == blinding_generator_encoding(),
{
    let g = RistrettoPublic::basepoint().to_bytes();
    let message = join_bytes(HASH_TO_POINT_DOMAIN_TAG.as_bytes(), g.as_slice());
    let digest = blake2b_512_digest(message.as_slice());
    RistrettoPublic::from_uniform_bytes(&digest)
}

/// A blinding factor of a commitment.
#[derive(Clone, Copy, Debug, PartialEq, Eq, Hash)]
pub struct Blinding {
    pub scalar: Scalar,
}

impl View for Blinding {
    type V = nat;

    open spec fn view(&self) -> nat {
        self.scalar@
    }
}

impl Blinding {
    /// The blinding that is the scalar `scalar`.
    pub fn from(scalar: Scalar) -> (blinding: Blinding)
        ensures
            blinding.scalar == scalar,
    {
        Blinding { scalar }
    }

    /// The scalar of the blinding.
    pub fn as_scalar(&self) -> (scalar: &Scalar)
        ensures
            *scalar == self.scalar,
    {
        &self.scalar
    }
}

/// A scalar that carries a masked value.
#[derive(Clone, Copy, Debug, PartialEq, Eq, Hash)]
pub struct CurveScalar {
    pub scalar: Scalar,
}

impl View for CurveScalar {
    type V = nat;

    open spec fn view(&self) -> nat {
        self.scalar@
    }
}

impl CurveScalar {
    /// The carrier of the scalar `scalar`.
    pub fn from(scalar: Scalar) -> (carrier: CurveScalar)
        ensures
            carrier.scalar == scalar,
    {
        CurveScalar { scalar }
    }

    /// The scalar that is carried.
    pub fn as_scalar(&self) -> (scalar: &Scalar)
        ensures
            *scalar == self.scalar,
    {
        &self.scalar
    }
}

/// A Pedersen commitment, as the 32 bytes of its compressed group element.
/// Two commitments are equal when their bytes are.
#[derive(Clone, Copy, Debug, PartialEq, Eq, Hash, Default)]
pub struct Commitment {
    pub bytes: [u8; 32],
}

impl View for Commitment {
    type V = Seq<u8>;

    open spec fn view(&self) -> Seq<u8> {
        self.bytes@
    }
}

impl Commitment {
    /// The commitment `value * G + blinding * H`.
    pub fn new(value: &Scalar, blinding: &Scalar) -> (commitment: Commitment)
        ensures
            commitment@ == pedersen_commitment(value@, blinding@),
    {
        let value_part = value_generator().mul(value);
        let blinding_part = blinding_generator().mul(blinding);
        Commitment { bytes: value_part.add(&blinding_part).to_bytes() }
    }

    /// Whether two commitments are equal.
    pub fn equals(&self, other: &Commitment) -> (same: bool)
        ensures
            same == (self@ == other@),
    {
        crate::encoding::bytes32_equal(&self.bytes, &other.bytes)
    }
}

/// The tag by which the ledger recognises a spent output, as 32 bytes.
#[derive(Clone, Copy, Debug, PartialEq, Eq, Hash, Default)]
pub struct KeyImage {
    pub bytes: [u8; 32],
}

impl View for KeyImage {
    type V = Seq<u8>;

    open spec fn view(&self) -> Seq<u8> {
        self.bytes@
    }
}

/// The signature of a transaction. It is produced and checked elsewhere;
/// here it is carried, hashed, and asked for its key images.
#[derive(Clone, Debug, PartialEq, Eq, Default)]
pub struct RingSignature {
    /// One key image for each input that is spent.
    pub key_images: Vec<KeyImage>,
    /// The signature itself, not looked into.
    pub signature_bytes: Vec<u8>,
}

impl RingSignature {
    /// The key images of the inputs that the signature spends, in order.
    pub fn key_images(&self) -> (images: Vec<KeyImage>)
        ensures
            images@ == self.key_images@,
    {
        let mut images: Vec<KeyImage> = Vec::new();
        let mut i: usize = 0;
        while i < self.key_images.len()
            invariant
                i <= self.key_images@.len(),
                images@ == self.key_images@.subrange(0, i as int),
            decreases self.key_images@.len() - i,
        {
            images.push(self.key_images[i]);
            i = i + 1;
            proof {
                assert(images@ =~= self.key_images@.subrange(0, i as int));
            }
        }
        proof {
            assert(self.key_images@.subrange(0, self.key_images@.len() as int) =~= self.key_images@);
        }
        images
    }
}

} // verus!
