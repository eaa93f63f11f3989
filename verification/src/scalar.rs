//! Scalars: integers modulo the order of the Ristretto group, held as their
//! canonical 32-byte little-endian encoding. The arithmetic is that of
//! `curve25519_dalek::scalar::Scalar`.

use vstd::prelude::*;
use crate::encoding::{le_value, le_bytes, lemma_le_bytes_of_le_value, lemma_le_value_injective};

verus! {

/// The order `l = 2^252 + 27742317777372353535851937790883648493` of the
/// Ristretto group.
pub open spec fn group_order() -> nat {
    7237005577332262213973186563042994240857116359379907606001950938285454250989nat
}

/// The representative in `[0, l)` of `x` modulo the group order.
pub open spec fn mod_order(x: int) -> nat {
    (x % (group_order() as int)) as nat
}

/// An integer modulo the group order.
#[derive(Clone, Copy, Debug, PartialEq, Eq, Hash)]
pub struct Scalar {
    bytes: [u8; 32],
}

impl View for Scalar {
    type V = nat;

    /// The integer in `[0, l)` that the scalar stands for.
    open spec fn view(&self) -> nat {
        le_value(self.as_seq())
    }
}

impl Scalar {
    /// The 32 bytes that encode the scalar, least significant first.
    pub closed spec fn as_seq(self) -> Seq<u8> {
        self.bytes@
    }

    /// The encoding is the canonical one: the integer is below the group
    /// order. Every scalar that executable code holds is canonical.
    #[verifier::type_invariant]
    pub open spec fn is_canonical(self) -> bool {
        self@ < group_order()
    }

    /// The scalar that stands for `x`.
    pub fn from_u64(x: u64) -> (s: Scalar)
        ensures
            s@ == x,
            s.is_canonical(),
    {
        let bytes = scalar_from_u64(x);
        Scalar { bytes }
    }

    /// The scalar that a 256-bit little-endian integer reduces to.
    pub fn from_bytes_mod_order(bytes: [u8; 32]) -> (s: Scalar)
        ensures
            s@ == le_value(bytes@) % group_order(),
            s.is_canonical(),
    {
        let reduced = scalar_reduce(&bytes);
        Scalar { bytes: reduced }
    }

    /// The scalar that a 512-bit little-endian integer reduces to.
    pub fn from_bytes_mod_order_wide(bytes: &[u8; 64]) -> (s: Scalar)
        ensures
            s@ == le_value(bytes@) % group_order(),
            s.is_canonical(),
    {
        let reduced = scalar_reduce_wide(bytes);
        Scalar { bytes: reduced }
    }

    /// The scalar with the encoding `bytes`, where that encoding is
    /// canonical; `None` where it is not.
    pub fn from_canonical_bytes(bytes: [u8; 32]) -> (r: Option<Scalar>)
        ensures
            r is Some <==> le_value(bytes@) < group_order(),
            r matches Some(s) ==> s.as_seq() == bytes@ && s.is_canonical(),
    {
        if scalar_is_canonical(&bytes) {
            Some(Scalar { bytes })
        } else {
            None
        }
    }

    /// The canonical encoding.
    pub fn to_bytes(&self) -> (bytes: [u8; 32])
        ensures
            bytes@ == self.as_seq(),
            bytes@ == le_bytes(self@, 32),
            self.is_canonical(),
    {
        proof {
            use_type_invariant(self);
            lemma_le_bytes_of_le_value(self.bytes@);
        }
        self.bytes
    }

    /// The sum modulo the group order.
    pub fn add(&self, other: &Scalar) -> (sum: Scalar)
        ensures
            sum@ == mod_order((self@ + other@) as int),
            sum.is_canonical(),
    {
        proof {
            use_type_invariant(self);
            use_type_invariant(other);
        }
        let bytes = scalar_add(&self.bytes, &other.bytes);
        Scalar { bytes }
    }

    /// The difference modulo the group order.
    pub fn sub(&self, other: &Scalar) -> (difference: Scalar)
        ensures
            difference@ == mod_order(self@ - other@),
            difference.is_canonical(),
    {
        proof {
            use_type_invariant(self);
            use_type_invariant(other);
        }
        let bytes = scalar_sub(&self.bytes, &other.bytes);
        Scalar { bytes }
    }

    /// Whether two scalars are the same integer.
    pub fn equals(&self, other: &Scalar) -> (same: bool)
        ensures
            same == (self@ == other@),
            same == (*self == *other),
    {
        proof {
            use_type_invariant(self);
            use_type_invariant(other);
            lemma_scalar_equality(*self, *other);
        }
        crate::encoding::bytes32_equal(&self.bytes, &other.bytes)
    }
}

/// Canonical scalars are equal exactly when they stand for the same integer.
pub proof fn lemma_scalar_equality(a: Scalar, b: Scalar)
    ensures
        a@ == b@ <==> a == b,
        a@ == b@ <==> a.as_seq() == b.as_seq(),
{
    if a@ == b@ {
        lemma_le_value_injective(a.bytes@, b.bytes@);
        assert(a.bytes =~= b.bytes);
    }
}

/// Calls `Scalar::from(u64)` and `Scalar::to_bytes`. Trusted: the bytes
/// encode `x` itself.
#[verifier::external_body]
fn scalar_from_u64(x: u64) -> (bytes: [u8; 32])
    ensures
        le_value(bytes@) == x,
{
    curve25519_dalek::scalar::Scalar::from(x).to_bytes()
}

/// Calls `Scalar::from_bytes_mod_order`. Trusted: the result encodes the
/// input reduced modulo the group order.
#[verifier::external_body]
fn scalar_reduce(bytes: &[u8; 32]) -> (reduced: [u8; 32])
    ensures
        le_value(reduced@) == le_value(bytes@) % group_order(),
{
    curve25519_dalek::scalar::Scalar::from_bytes_mod_order(*bytes).to_bytes()
}

/// Calls `Scalar::from_bytes_mod_order_wide`. Trusted: the result encodes
/// the 512-bit input reduced modulo the group order.
#[verifier::external_body]
fn scalar_reduce_wide(bytes: &[u8; 64]) -> (reduced: [u8; 32])
    ensures
        le_value(reduced@) == le_value(bytes@) % group_order(),
{
    curve25519_dalek::scalar::Scalar::from_bytes_mod_order_wide(bytes).to_bytes()
}

/// Calls `Scalar::from_canonical_bytes`. Trusted: it accepts exactly the
/// encodings of integers below the group order.
#[verifier::external_body]
fn scalar_is_canonical(bytes: &[u8; 32]) -> (canonical: bool)
    ensures
        canonical == (le_value(bytes@) < group_order()),
{
    curve25519_dalek::scalar::Scalar::from_canonical_bytes(*bytes).is_some().into()
}

/// Calls `Scalar`'s `+`. Trusted: on canonical encodings the result
/// encodes the sum modulo the group order.
#[verifier::external_body]
fn scalar_add(a: &[u8; 32], b: &[u8; 32]) -> (sum: [u8; 32])
    requires
        le_value(a@) < group_order(),
        le_value(b@) < group_order(),
    ensures
        le_value(sum@) == mod_order((le_value(a@) + le_value(b@)) as int),
{
    let x = curve25519_dalek::scalar::Scalar::from_bytes_mod_order(*a);
    let y = curve25519_dalek::scalar::Scalar::from_bytes_mod_order(*b);
    (x + y).to_bytes()
}

/// Calls `Scalar`'s `-`. Trusted: on canonical encodings the result
/// encodes the difference modulo the group order.
#[verifier::external_body]
fn scalar_sub(a: &[u8; 32], b: &[u8; 32]) -> (difference: [u8; 32])
    requires
        le_value(a@) < group_order(),
        le_value(b@) < group_order(),
    ensures
        le_value(difference@) == mod_order(le_value(a@) - le_value(b@)),
{
    let x = curve25519_dalek::scalar::Scalar::from_bytes_mod_order(*a);
    let y = curve25519_dalek::scalar::Scalar::from_bytes_mod_order(*b);
    (x - y).to_bytes()
}

} // verus!
