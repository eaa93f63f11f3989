//! One-time keys: the keys of an output, derived from the transaction's
//! private key and the recipient's address.

use vstd::prelude::*;
use vstd::string::StringSliceAdditionalSpecFns;
use crate::account_keys::PublicAddress;
use crate::domain_separators::HASH_TO_SCALAR_DOMAIN_TAG;
use crate::encoding::{join_bytes, le_value};
use crate::hashes::{blake2b_512, blake2b_512_digest};
use crate::ristretto::{basepoint_encoding, ristretto_add, ristretto_mul, RistrettoPrivate, RistrettoPublic};
use crate::scalar::{group_order, Scalar};

verus! {

/// The integer of the scalar `Hs(point)`: the tagged BLAKE2b-512 digest of
/// the point's encoding, reduced modulo the group order.
pub open spec fn point_scalar_hash(point: Seq<u8>) -> nat {
    le_value(blake2b_512(HASH_TO_SCALAR_DOMAIN_TAG.spec_bytes() + point)) % group_order()
}

/// The encoding of the one-time public key `Hs(r * C) * G + D` of an output
/// with private key `r` for the address with view key `C` and spend key
/// `D`.
pub open spec fn onetime_public_key(r: nat, view_key: Seq<u8>, spend_key: Seq<u8>) -> Seq<u8> {
    ristretto_add(
        ristretto_mul(point_scalar_hash(ristretto_mul(r, view_key)), basepoint_encoding()),
        spend_key,
    )
}

/// Hashes a group element to a scalar.
pub fn hash_to_scalar(point: &RistrettoPublic) -> (scalar: Scalar)
    ensures
        scalar@ == point_scalar_hash(point@),
        scalar.is_canonical(),
{
    let point_bytes = point.to_bytes();
    let message = join_bytes(HASH_TO_SCALAR_DOMAIN_TAG.as_bytes(), point_bytes.as_slice());
    let digest = blake2b_512_digest(message.as_slice());
    Scalar::from_bytes_mod_order_wide(&digest)
}

/// The one-time public key `Hs(r * C) * G + D` of an output.
pub fn create_onetime_public_key(
    tx_private_key: &RistrettoPrivate,
    recipient: &PublicAddress,
) -> (key: RistrettoPublic)
    ensures
        key@ == onetime_public_key(
            tx_private_key@,
            recipient.view_public_key@,
            recipient.spend_public_key@,
        ),
{
    let shared = recipient.view_public_key().mul(tx_private_key.as_scalar());
    let hs = hash_to_scalar(&shared);
    RistrettoPublic::basepoint().mul(&hs).add(recipient.spend_public_key())
}

/// The public key `r * D` of an output, for the recipient's spend key `D`.
pub fn create_tx_public_key(
    tx_private_key: &RistrettoPrivate,
    recipient_spend_key: &RistrettoPublic,
) -> (key: RistrettoPublic)
    ensures
        key@ == ristretto_mul(tx_private_key@, recipient_spend_key@),
{
    recipient_spend_key.mul(tx_private_key.as_scalar())
}

/// The shared secret `private_key * public_key`.
pub fn create_shared_secret(public_key: &RistrettoPublic, private_key: &RistrettoPrivate) -> (secret:
    RistrettoPublic)
    ensures
        secret@ == ristretto_mul(private_key@, public_key@),
{
    public_key.mul(private_key.as_scalar())
}

/// The shared secret of an output, as its recipient computes it from the
/// private view key and the output's public key.
pub fn get_tx_out_shared_secret(
    view_key: &RistrettoPrivate,
    tx_public_key: &RistrettoPublic,
) -> (secret: RistrettoPublic)
    ensures
        secret@ == ristretto_mul(view_key@, tx_public_key@),
{
    create_shared_secret(tx_public_key, view_key)
}

} // verus!
