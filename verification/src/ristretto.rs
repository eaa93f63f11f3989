//! Points of the Ristretto group, held as their canonical 32-byte encoding,
//! and the keys built from them. The group operations are those of
//! `curve25519_dalek::ristretto`.

use vstd::prelude::*;
use crate::encoding::{bytes32_equal, le_bytes, le_value};
use crate::scalar::{group_order, Scalar};

verus! {

/// Whether the 32 bytes `encoding` are the canonical encoding of a group
/// element: whether `CompressedRistretto::decompress` accepts them.
pub uninterp spec fn ristretto_decompresses(encoding: Seq<u8>) -> bool;

/// The encoding of the sum of the group elements encoded by `p` and `q`.
pub uninterp spec fn ristretto_add(p: Seq<u8>, q: Seq<u8>) -> Seq<u8>;

/// The encoding of the product of the scalar with the 32-byte encoding
/// `scalar` and the group element encoded by `p`.
pub uninterp spec fn ristretto_scalar_mul(scalar: Seq<u8>, p: Seq<u8>) -> Seq<u8>;

/// The encoding of `scalar` times the group element encoded by `p`.
pub open spec fn ristretto_mul(scalar: nat, p: Seq<u8>) -> Seq<u8> {
    ristretto_scalar_mul(le_bytes(scalar, 32), p)
}

/// The encoding of the group element that the one-way map of the Ristretto
/// group sends 64 uniform bytes to.
pub uninterp spec fn ristretto_from_uniform_bytes(bytes: Seq<u8>) -> Seq<u8>;

/// The encoding of the base point of the Ristretto group.
pub open spec fn basepoint_encoding() -> Seq<u8> {
    seq![
        0xe2u8, 0xf2u8, 0xaeu8, 0x0au8, 0x6au8, 0xbcu8, 0x4eu8, 0x71u8,
        0xa8u8, 0x84u8, 0xa9u8, 0x61u8, 0xc5u8, 0x00u8, 0x51u8, 0x5fu8,
        0x58u8, 0xe3u8, 0x0bu8, 0x6au8, 0xa5u8, 0x82u8, 0xddu8, 0x8du8,
        0xb6u8, 0xa6u8, 0x59u8, 0x45u8, 0xe0u8, 0x8du8, 0x2du8, 0x76u8,
    ]
}

/// A group element, as a public key or a shared secret.
#[derive(Clone, Copy, Debug, PartialEq, Eq, Hash)]
pub struct RistrettoPublic {
    bytes: [u8; 32],
}

impl View for RistrettoPublic {
    type V = Seq<u8>;

    /// The canonical encoding of the group element.
    closed spec fn view(&self) -> Seq<u8> {
        self.bytes@
    }
}

impl RistrettoPublic {
    /// The bytes encode a group element. Every value that executable code
    /// holds does.
    #[verifier::type_invariant]
    pub open spec fn is_valid(self) -> bool {
        ristretto_decompresses(self@)
    }

    /// The group element that `bytes` encode, where they encode one.
    pub fn try_from_bytes(bytes: &[u8; 32]) -> (r: Option<RistrettoPublic>)
        ensures
            r is Some <==> ristretto_decompresses(bytes@),
            r matches Some(point) ==> point@ == bytes@ && point.is_valid(),
    {
        if point_decompresses(bytes) {
            Some(RistrettoPublic { bytes: *bytes })
        } else {
            None
        }
    }

    /// The canonical encoding.
    pub fn to_bytes(&self) -> (bytes: [u8; 32])
        ensures
            bytes@ == self@,
            self.is_valid(),
    {
        proof {
            use_type_invariant(self);
        }
        self.bytes
    }

    /// The base point of the group.
    pub fn basepoint() -> (g: RistrettoPublic)
        ensures
            g@ == basepoint_encoding(),
            g.is_valid(),
    {
        let bytes = basepoint_bytes();
        RistrettoPublic { bytes }
    }

    /// The group element that 64 uniform bytes are mapped to.
    pub fn from_uniform_bytes(bytes: &[u8; 64]) -> (point: RistrettoPublic)
        ensures
            point@ == ristretto_from_uniform_bytes(bytes@),
            point.is_valid(),
    {
        let encoding = point_from_uniform_bytes(bytes);
        RistrettoPublic { bytes: encoding }
    }

    /// The public key of a private key: the private scalar times the base
    /// point.
    pub fn from_private(private: &RistrettoPrivate) -> (public: RistrettoPublic)
        ensures
            public@ == ristretto_mul(private@, basepoint_encoding()),
            public.is_valid(),
    {
        RistrettoPublic::basepoint().mul(private.as_scalar())
    }

    /// `scalar` times this group element.
    pub fn mul(&self, scalar: &Scalar) -> (product: RistrettoPublic)
        ensures
            product@ == ristretto_mul(scalar@, self@),
            product.is_valid(),
    {
        proof {
            use_type_invariant(self);
        }
        let k = scalar.to_bytes();
        let bytes = point_mul(&k, &self.bytes);
        RistrettoPublic { bytes }
    }

    /// The sum of this group element and `other`.
    pub fn add(&self, other: &RistrettoPublic) -> (sum: RistrettoPublic)
        ensures
            sum@ == ristretto_add(self@, other@),
            sum.is_valid(),
    {
        proof {
            use_type_invariant(self);
            use_type_invariant(other);
        }
        let bytes = point_add(&self.bytes, &other.bytes);
        RistrettoPublic { bytes }
    }

    /// Whether two group elements are the same: whether their encodings
    /// are.
    pub fn equals(&self, other: &RistrettoPublic) -> (same: bool)
        ensures
            same == (self@ == other@),
    {
        bytes32_equal(&self.bytes, &other.bytes)
    }
}

/// A private key: a scalar.
#[derive(Clone, Copy, Debug, PartialEq, Eq)]
pub struct RistrettoPrivate {
    scalar: Scalar,
}

impl View for RistrettoPrivate {
    type V = nat;

    /// The integer in `[0, l)` that the private scalar stands for.
    closed spec fn view(&self) -> nat {
        self.scalar@
    }
}

impl RistrettoPrivate {
    /// The private key that holds `scalar`.
    pub fn from_scalar(scalar: Scalar) -> (private: RistrettoPrivate)
        ensures
            private@ == scalar@,
            private.spec_scalar() == scalar,
    {
        RistrettoPrivate { scalar }
    }

    /// The scalar that the key holds.
    pub closed spec fn spec_scalar(self) -> Scalar {
        self.scalar
    }

    /// The scalar that the key holds.
    pub fn as_scalar(&self) -> (scalar: &Scalar)
        ensures
            scalar@ == self@,
            *scalar == self.spec_scalar(),
    {
        &self.scalar
    }
}

/// The 32 bytes of a compressed group element, as stored in an output. They
/// are not known to encode a group element until decompressed.
#[derive(Clone, Copy, Debug, PartialEq, Eq, Hash, Default)]
pub struct CompressedRistrettoPublic {
    pub bytes: [u8; 32],
}

impl View for CompressedRistrettoPublic {
    type V = Seq<u8>;

    open spec fn view(&self) -> Seq<u8> {
        self.bytes@
    }
}

impl CompressedRistrettoPublic {
    /// The compressed form of `point`.
    pub fn from_public(point: &RistrettoPublic) -> (compressed: CompressedRistrettoPublic)
        ensures
            compressed@ == point@,
    {
        CompressedRistrettoPublic { bytes: point.to_bytes() }
    }

    /// The group element, where the bytes encode one.
    pub fn decompress(&self) -> (r: Option<RistrettoPublic>)
        ensures
            r is Some <==> ristretto_decompresses(self@),
            r matches Some(point) ==> point@ == self@ && point.is_valid(),
    {
        RistrettoPublic::try_from_bytes(&self.bytes)
    }

    /// The 32 bytes.
    pub fn to_bytes(&self) -> (bytes: [u8; 32])
        ensures
            bytes@ == self@,
    {
        self.bytes
    }
}

/// Calls `CompressedRistretto::decompress`. Trusted: the answer is whether
/// decompression succeeds, a function of the 32 bytes alone.
#[verifier::external_body]
fn point_decompresses(encoding: &[u8; 32]) -> (valid: bool)
    ensures
        valid == ristretto_decompresses(encoding@),
{
    curve25519_dalek::ristretto::CompressedRistretto(*encoding).decompress().is_some()
}

/// Returns `RISTRETTO_BASEPOINT_COMPRESSED`. Trusted: its 32 bytes are those
/// written out in `basepoint_encoding`, and they encode a group element.
#[verifier::external_body]
fn basepoint_bytes() -> (encoding: [u8; 32])
    ensures
        encoding@ == basepoint_encoding(),
        ristretto_decompresses(encoding@),
{
    curve25519_dalek::constants::RISTRETTO_BASEPOINT_COMPRESSED.to_bytes()
}

/// Calls `RistrettoPoint::from_uniform_bytes` and `compress`. Trusted: the
/// result is a function of the 64 bytes alone and encodes a group element.
#[verifier::external_body]
fn point_from_uniform_bytes(bytes: &[u8; 64]) -> (encoding: [u8; 32])
    ensures
        encoding@ == ristretto_from_uniform_bytes(bytes@),
        ristretto_decompresses(encoding@),
{
    curve25519_dalek::ristretto::RistrettoPoint::from_uniform_bytes(bytes).compress().to_bytes()
}

/// Calls `RistrettoPoint`'s `*` with a `Scalar`. Trusted: the result is a
/// function of the scalar and of the point, and encodes a group element.
/// The scalar is canonical and the point decompresses, so neither
/// conversion changes the scalar or fails.
#[verifier::external_body]
fn point_mul(scalar: &[u8; 32], point: &[u8; 32]) -> (product: [u8; 32])
    requires
        le_value(scalar@) < group_order(),
        ristretto_decompresses(point@),
    ensures
        product@ == ristretto_scalar_mul(scalar@, point@),
        ristretto_decompresses(product@),
{
    let k = curve25519_dalek::scalar::Scalar::from_bytes_mod_order(*scalar);
    let p = curve25519_dalek::ristretto::CompressedRistretto(*point).decompress().unwrap();
    (k * p).compress().to_bytes()
}

/// Calls `RistrettoPoint`'s `+`. Trusted: the result is a function of the
/// two points and encodes a group element. Both points decompress, so
/// neither conversion fails.
#[verifier::external_body]
fn point_add(p: &[u8; 32], q: &[u8; 32]) -> (sum: [u8; 32])
    requires
        ristretto_decompresses(p@),
        ristretto_decompresses(q@),
    ensures
        sum@ == ristretto_add(p@, q@),
        ristretto_decompresses(sum@),
{
    let a = curve25519_dalek::ristretto::CompressedRistretto(*p).decompress().unwrap();
    let b = curve25519_dalek::ristretto::CompressedRistretto(*q).decompress().unwrap();
    (a + b).compress().to_bytes()
}

} // verus!
