//! The encrypted fog hint of an output: a blob of fixed size that is carried
//! and hashed, never read.

use vstd::prelude::*;
use vstd::std_specs::convert::FromSpecImpl;

verus! {

/// An encrypted fog hint.
#[derive(Clone, Copy, Debug, PartialEq, Eq, Hash)]
pub struct EncryptedFogHint {
    pub bytes: [u8; 84],
}

impl View for EncryptedFogHint {
    type V = Seq<u8>;

    open spec fn view(&self) -> Seq<u8> {
        self.bytes@
    }
}

impl From<&[u8; 84]> for EncryptedFogHint {
    fn from(bytes: &[u8; 84]) -> (hint: EncryptedFogHint) {
        EncryptedFogHint { bytes: *bytes }
    }
}

impl FromSpecImpl<&[u8; 84]> for EncryptedFogHint {
    open spec fn obeys_from_spec() -> bool {
        true
    }

    open spec fn from_spec(bytes: &[u8; 84]) -> EncryptedFogHint {
        EncryptedFogHint { bytes: *bytes }
    }
}

impl EncryptedFogHint {
    /// The hint with the given bytes.
    pub fn new(bytes: &[u8; 84]) -> (hint: EncryptedFogHint)
        ensures
            hint@ == bytes@,
    {
        EncryptedFogHint { bytes: *bytes }
    }

    /// The bytes of the hint.
    pub fn to_bytes(&self) -> (bytes: [u8; 84])
        ensures
            bytes@ == self@,
    {
        self.bytes
    }
}

} // verus!
