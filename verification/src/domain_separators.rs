//! The tags that keep the uses of the hash functions apart.

use vstd::prelude::*;

verus! {

/// Tag of the hash that derives the blinding generator from the base point.
pub const HASH_TO_POINT_DOMAIN_TAG: &'static str = "mc_ristretto_hash_to_point";

/// Tag of the hash that maps a group element to a scalar.
pub const HASH_TO_SCALAR_DOMAIN_TAG: &'static str = "mc_ristretto_hash_to_scalar";

/// Tag of the hash that derives an output's blinding from its shared secret.
pub const AMOUNT_BLINDING_DOMAIN_TAG: &'static str = "mc_amount_blinding";

/// Tag of the hash that derives the key stream of a memo.
pub const MEMO_KEYSTREAM_DOMAIN_TAG: &'static str = "mc_memo_keystream";

/// Tag of the hash that derives a confirmation number.
pub const TXOUT_CONFIRMATION_NUMBER_DOMAIN_TAG: &'static str = "mc_tx_out_confirmation_number";

} // verus!
