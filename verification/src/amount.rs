//! A commitment to an output's amount.
//!
//! An amount is a Pedersen commitment together with the committed value and
//! its blinding, both masked with scalars derived from a shared secret, so
//! that the recipient can recover them.

use vstd::prelude::*;
use crate::constants::MAX_TINY_MOB;
use crate::encoding::{le_bytes, le_value, lemma_pow256_values, low_u64, pow256};
use crate::hashes::{blake2b_512, blake2b_512_digest};
use crate::ring_signature::{pedersen_commitment, Blinding, Commitment, CurveScalar};
use crate::ristretto::RistrettoPublic;
use crate::scalar::{group_order, lemma_scalar_equality, mod_order, Scalar};

verus! {

/// Errors that can occur when constructing or opening an amount.
#[derive(Clone, Copy, Debug, PartialEq, Eq, Structural)]
pub enum AmountError {
    /// The value exceeds `MAX_TINY_MOB`.
    ExceedsLimit(u64),
    /// The masked value, the masked blinding or the shared secret are not
    /// consistent with the commitment.
    InconsistentCommitment,
}

impl AmountError {
    /// What the error says, in words.
    pub fn message(&self) -> (text: &'static str)
        ensures
            self is InconsistentCommitment ==> text@ == "Inconsistent Commitment"@,
            self is ExceedsLimit ==> text@ == "Amount exceeds MAX_TINY_MOB"@,
    {
        match self {
            AmountError::ExceedsLimit(_) => "Amount exceeds MAX_TINY_MOB",
            AmountError::InconsistentCommitment => "Inconsistent Commitment",
        }
    }
}

/// The mask of the value: the BLAKE2b-512 digest of the shared secret,
/// reduced to a scalar.
pub open spec fn value_mask(secret: Seq<u8>) -> nat {
    le_value(blake2b_512(secret)) % group_order()
}

/// The mask of the blinding: the BLAKE2b-512 digest of the encoded mask of
/// the value, reduced to a scalar.
pub open spec fn blinding_mask(secret: Seq<u8>) -> nat {
    le_value(blake2b_512(le_bytes(value_mask(secret), 32))) % group_order()
}

/// A commitment to the amount of an output.
#[derive(Clone, Copy, Debug, PartialEq, Eq, Hash)]
pub struct Amount {
    /// A Pedersen commitment `v*G + b*H` to a value `v` with blinding `b`.
    pub commitment: Commitment,
    /// `v + mask_v(shared_secret)`.
    pub masked_value: CurveScalar,
    /// `b + mask_b(shared_secret)`.
    pub masked_blinding: Blinding,
}

impl Amount {
    /// The amount is the one that commits to `value` with `blinding` and
    /// masks both under `secret`.
    pub open spec fn commits_to(self, value: u64, blinding: nat, secret: Seq<u8>) -> bool {
        &&& self.commitment@ == pedersen_commitment(value as nat, blinding)
        &&& self.masked_value@ == mod_order((value + value_mask(secret)) as int)
        &&& self.masked_blinding@ == mod_order((blinding + blinding_mask(secret)) as int)
        &&& self.masked_value.scalar.is_canonical()
        &&& self.masked_blinding.scalar.is_canonical()
    }

    /// The value that `secret` unmasks: the low 64 bits of the masked value
    /// less its mask.
    pub open spec fn unmasked_value(self, secret: Seq<u8>) -> u64 {
        (mod_order(self.masked_value@ - value_mask(secret)) % pow256(8)) as u64
    }

    /// The blinding that `secret` unmasks: the masked blinding less its
    /// mask.
    pub open spec fn unmasked_blinding(self, secret: Seq<u8>) -> nat {
        mod_order(self.masked_blinding@ - blinding_mask(secret))
    }

    /// The commitment is the one to the value and blinding that `secret`
    /// unmasks.
    pub open spec fn opens_under(self, secret: Seq<u8>) -> bool {
        self.commitment@ == pedersen_commitment(
            self.unmasked_value(secret) as nat,
            self.unmasked_blinding(secret),
        )
    }

    /// Creates a commitment `value*G + blinding*H`, and masks the value and
    /// the blinding so that the holder of `shared_secret` can recover them.
    /// A value above `MAX_TINY_MOB` is refused.
    pub fn new(value: u64, blinding: Blinding, shared_secret: &RistrettoPublic) -> (r: Result<
        Amount,
        AmountError,
    >)
        ensures
            value > MAX_TINY_MOB ==> r == Err::<Amount, AmountError>(
                AmountError::ExceedsLimit(value),
            ),
            value <= MAX_TINY_MOB ==> r is Ok && r->Ok_0.commits_to(
                value,
                blinding@,
                shared_secret@,
            ),
    {
        if value > MAX_TINY_MOB {
            return Err(AmountError::ExceedsLimit(value));
        }
        let value_scalar = Scalar::from_u64(value);
        let commitment = Commitment::new(&value_scalar, blinding.as_scalar());
        let masked_value = value_scalar.add(&get_value_mask(shared_secret));
        let masked_blinding = blinding.as_scalar().add(&get_blinding_mask(shared_secret));
        Ok(
            Amount {
                commitment,
                masked_value: CurveScalar::from(masked_value),
                masked_blinding: Blinding::from(masked_blinding),
            },
        )
    }

    /// Returns the value `v` and blinding `b` in the commitment `v*G + b*H`,
    /// where the commitment agrees with what `shared_secret` unmasks, and
    /// `InconsistentCommitment` where it does not.
    pub fn get_value(&self, shared_secret: &RistrettoPublic) -> (r: Result<
        (u64, Blinding),
        AmountError,
    >)
        ensures
            self.opens_under(shared_secret@) ==> r is Ok && r->Ok_0.0 == self.unmasked_value(
                shared_secret@,
            ) && r->Ok_0.1@ == self.unmasked_blinding(shared_secret@)
                && r->Ok_0.1.scalar.is_canonical(),
            !self.opens_under(shared_secret@) ==> r == Err::<(u64, Blinding), AmountError>(
                AmountError::InconsistentCommitment,
            ),
    {
        let value: u64 = self.unmask_value(shared_secret);
        let blinding = self.unmask_blinding(shared_secret);
        let expected_commitment = Commitment::new(&Scalar::from_u64(value), blinding.as_scalar());
        if !self.commitment.equals(&expected_commitment) {
            return Err(AmountError::InconsistentCommitment);
        }
        Ok((value, blinding))
    }

    /// Reveals `masked_value`: the low 64 bits of the masked value less its
    /// mask. The higher bits are not looked at; where they are not zero,
    /// the amount was not made by `new`, and whether the commitment agrees
    /// with the low bits is for `get_value` to find.
    pub fn unmask_value(&self, shared_secret: &RistrettoPublic) -> (value: u64)
        ensures
            value == self.unmasked_value(shared_secret@),
    {
        let mask = get_value_mask(shared_secret);
        let value_as_scalar = self.masked_value.as_scalar().sub(&mask);
        let bytes = value_as_scalar.to_bytes();
        low_u64(&bytes)
    }

    /// Reveals `masked_blinding`.
    pub fn unmask_blinding(&self, shared_secret: &RistrettoPublic) -> (blinding: Blinding)
        ensures
            blinding@ == self.unmasked_blinding(shared_secret@),
            blinding.scalar.is_canonical(),
    {
        let mask = get_blinding_mask(shared_secret);
        Blinding::from(self.masked_blinding.as_scalar().sub(&mask))
    }
}

/// Computes the mask of the value, `Blake2B(shared_secret)`.
pub fn get_value_mask(shared_secret: &RistrettoPublic) -> (mask: Scalar)
    ensures
        mask@ == value_mask(shared_secret@),
        mask.is_canonical(),
{
    get_mask(shared_secret)
}

/// Computes the mask of the blinding, `Blake2B(Blake2B(shared_secret))`.
pub fn get_blinding_mask(shared_secret: &RistrettoPublic) -> (mask: Scalar)
    ensures
        mask@ == blinding_mask(shared_secret@),
        mask.is_canonical(),
{
    let inner_mask = get_mask(shared_secret);
    let inner_bytes = inner_mask.to_bytes();
    let digest = blake2b_512_digest(inner_bytes.as_slice());
    Scalar::from_bytes_mod_order_wide(&digest)
}

/// Computes `Blake2B(shared_secret)`, reduced to a scalar.
fn get_mask(shared_secret: &RistrettoPublic) -> (mask: Scalar)
    ensures
        mask@ == value_mask(shared_secret@),
        mask.is_canonical(),
{
    let secret_bytes = shared_secret.to_bytes();
    let digest = blake2b_512_digest(secret_bytes.as_slice());
    Scalar::from_bytes_mod_order_wide(&digest)
}

/// Masking and unmasking cancel: for integers `x` and `mask` below the group
/// order, `((x + mask) mod l - mask) mod l` is `x`.
pub proof fn lemma_unmask_cancels(x: nat, mask: nat)
    requires
        x < group_order(),
        mask < group_order(),
    ensures
        mod_order(mod_order((x + mask) as int) - mask) == x,
{
    let l = group_order() as int;
    let masked = mod_order((x + mask) as int) as int;
    if x + mask < l {
        assert(masked == x + mask);
    } else {
        assert(masked == x + mask - l);
    }
}

/// The value and the blinding that an amount was made from are the ones
/// that the same shared secret recovers, and the commitment agrees with
/// them.
pub proof fn lemma_get_value_recovers(amount: Amount, value: u64, blinding: nat, secret: Seq<u8>)
    requires
        amount.commits_to(value, blinding, secret),
        blinding < group_order(),
    ensures
        amount.unmasked_value(secret) == value,
        amount.unmasked_blinding(secret) == blinding,
        amount.opens_under(secret),
{
    lemma_pow256_values();
    lemma_unmask_cancels(value as nat, value_mask(secret));
    lemma_unmask_cancels(blinding, blinding_mask(secret));
}

/// A blinding that is recovered as the integer of `blinding` is `blinding`
/// itself.
pub proof fn lemma_recovered_blinding_is_same(recovered: Blinding, blinding: Blinding)
    requires
        recovered@ == blinding@,
    ensures
        recovered == blinding,
{
    lemma_scalar_equality(recovered.scalar, blinding.scalar);
}

} // verus!
