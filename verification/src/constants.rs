//! Limits of the payment system.

use vstd::prelude::*;

verus! {

/// The largest value that one amount may commit to.
pub const MAX_TINY_MOB: u64 = 250_000_000_000_000_000;

/// The smallest fee that a transaction may pay.
pub const MINIMUM_FEE: u64 = 10_000_000_000;

/// The number of bytes of an encrypted fog hint.
pub const ENCRYPTED_FOG_HINT_LEN: usize = 84;

/// The number of bytes of a memo, plain or encrypted.
pub const MEMO_LEN: usize = 34;

/// The number of bytes of a transaction hash.
pub const TX_HASH_LEN: usize = 32;

} // verus!
