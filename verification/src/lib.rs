//! The data model of confidential transactions: amounts hidden in Pedersen
//! commitments, outputs for one-time addresses, membership proofs, and the
//! hashes and serialization of transactions.
//!
//! Group and scalar arithmetic is that of `curve25519-dalek`, hashing that
//! of `blake2` and `merlin`; what is assumed of them is stated at the
//! functions that call them.

pub mod account_keys;
pub mod amount;
pub mod codec;
pub mod constants;
pub mod digestible;
pub mod domain_separators;
pub mod encoding;
pub mod encrypted_fog_hint;
pub mod hashes;
pub mod membership_proofs;
pub mod memo;
pub mod onetime_keys;
pub mod ring_signature;
pub mod ristretto;
pub mod scalar;
pub mod transcript;
pub mod tx;
pub mod wire;

pub use amount::{Amount, AmountError};
pub use ring_signature::{Blinding, Commitment, CurveScalar, KeyImage, RingSignature};
pub use tx::{
    Tx, TxHash, TxIn, TxOut, TxOutConfirmationNumber, TxOutMembershipElement,
    TxOutMembershipHash, TxOutMembershipProof, TxPrefix,
};
