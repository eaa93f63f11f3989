//! The public address of a recipient.

use vstd::prelude::*;
use crate::ristretto::RistrettoPublic;

verus! {

/// The two public keys under which a recipient is paid.
#[derive(Clone, Copy, Debug, PartialEq, Eq, Hash)]
pub struct PublicAddress {
    /// The recipient's public view key `C`.
    pub view_public_key: RistrettoPublic,
    /// The recipient's public spend key `D`.
    pub spend_public_key: RistrettoPublic,
}

impl PublicAddress {
    /// The address with the given spend and view keys.
    pub fn new(spend_public_key: &RistrettoPublic, view_public_key: &RistrettoPublic) -> (address:
        PublicAddress)
        ensures
            address.spend_public_key == *spend_public_key,
            address.view_public_key == *view_public_key,
    {
        PublicAddress { view_public_key: *view_public_key, spend_public_key: *spend_public_key }
    }

    /// The recipient's public view key.
    pub fn view_public_key(&self) -> (key: &RistrettoPublic)
        ensures
            *key == self.view_public_key,
    {
        &self.view_public_key
    }

    /// The recipient's public spend key.
    pub fn spend_public_key(&self) -> (key: &RistrettoPublic)
        ensures
            *key == self.spend_public_key,
    {
        &self.spend_public_key
    }
}

} // verus!
