//! The memo of an output: 34 bytes, encrypted under the output's shared
//! secret with a key stream derived from it.

use vstd::prelude::*;
use vstd::string::StringSliceAdditionalSpecFns;
use crate::constants::MEMO_LEN;
use crate::domain_separators::MEMO_KEYSTREAM_DOMAIN_TAG;
use crate::encoding::{join_bytes, to_array};
use crate::hashes::{blake2b_512, blake2b_512_digest};
use crate::ristretto::RistrettoPublic;

verus! {

/// A memo ciphertext whose length is neither that of a memo nor zero.
#[derive(Clone, Copy, Debug, PartialEq, Eq, Structural)]
pub struct LengthError {
    /// The length that a memo has.
    pub expected: usize,
    /// The length that was found.
    pub found: usize,
}

/// The bytes `a[i] ^ b[i]`, for each index of `a`.
pub open spec fn xor_bytes(a: Seq<u8>, b: Seq<u8>) -> Seq<u8> {
    Seq::new(a.len(), |i: int| a[i] ^ b[i])
}

/// The key stream of the memo of an output with shared secret `secret`: the
/// tagged BLAKE2b-512 digest of the secret.
pub open spec fn memo_keystream(secret: Seq<u8>) -> Seq<u8> {
    blake2b_512(MEMO_KEYSTREAM_DOMAIN_TAG.spec_bytes() + secret)
}

/// A memo in the clear: two bytes that say of which kind it is, and 32
/// bytes of data.
#[derive(Clone, Copy, Debug, PartialEq, Eq, Hash)]
pub struct MemoPayload {
    pub bytes: [u8; 34],
}

impl View for MemoPayload {
    type V = Seq<u8>;

    open spec fn view(&self) -> Seq<u8> {
        self.bytes@
    }
}

impl Default for MemoPayload {
    /// The unused memo: all bytes zero.
    fn default() -> (memo: MemoPayload)
        ensures
            memo@ == Seq::new(34, |i: int| 0u8),
    {
        let memo = MemoPayload { bytes: [0u8;34] };
        proof {
            assert(memo@ =~= Seq::new(34, |i: int| 0u8));
        }
        memo
    }
}

impl MemoPayload {
    /// The memo with the given kind and data.
    pub fn new(memo_type: [u8; 2], data: [u8; 32]) -> (memo: MemoPayload)
        ensures
            memo@ == memo_type@ + data@,
    {
        let mut bytes = [0u8;34];
        bytes[0] = memo_type[0];
        bytes[1] = memo_type[1];
        let mut i: usize = 0;
        while i < 32
            invariant
                i <= 32,
                bytes@[0] == memo_type@[0],
                bytes@[1] == memo_type@[1],
                forall|j: int| 0 <= j < i ==> bytes@[2 + j] == data@[j],
            decreases 32 - i,
        {
            bytes[2 + i] = data[i];
            i = i + 1;
        }
        proof {
            assert(bytes@ =~= memo_type@ + data@);
        }
        MemoPayload { bytes }
    }

    /// The two bytes that say of which kind the memo is.
    pub fn get_memo_type(&self) -> (memo_type: [u8; 2])
        ensures
            memo_type@ == self@.subrange(0, 2),
    {
        let memo_type = [self.bytes[0], self.bytes[1]];
        proof {
            assert(memo_type@ =~= self@.subrange(0, 2));
        }
        memo_type
    }

    /// The memo, encrypted for the holder of `shared_secret`.
    pub fn encrypt(&self, shared_secret: &RistrettoPublic) -> (e_memo: [u8; 34])
        ensures
            e_memo@ == xor_bytes(self@, memo_keystream(shared_secret@)),
    {
        apply_keystream(&self.bytes, shared_secret)
    }

    /// The memo that `e_memo` encrypts under `shared_secret`. The length of
    /// `e_memo` is all that is checked: the result is not authenticated.
    pub fn try_decrypt(e_memo: &[u8], shared_secret: &RistrettoPublic) -> (r: Result<
        MemoPayload,
        LengthError,
    >)
        ensures
            e_memo@.len() != MEMO_LEN ==> r == Err::<MemoPayload, LengthError>(
                LengthError { expected: MEMO_LEN, found: e_memo@.len() as usize },
            ),
            e_memo@.len() == MEMO_LEN ==> r is Ok && r->Ok_0@ == xor_bytes(
                e_memo@,
                memo_keystream(shared_secret@),
            ),
    {
        match to_array::<34>(e_memo) {
            Some(bytes) => Ok(MemoPayload { bytes: apply_keystream(&bytes, shared_secret) }),
            None => Err(LengthError { expected: MEMO_LEN, found: e_memo.len() }),
        }
    }
}

/// Adds the key stream of `shared_secret` to 34 bytes.
fn apply_keystream(bytes: &[u8; 34], shared_secret: &RistrettoPublic) -> (out: [u8; 34])
    ensures
        out@ == xor_bytes(bytes@, memo_keystream(shared_secret@)),
{
    let secret_bytes = shared_secret.to_bytes();
    let message = join_bytes(MEMO_KEYSTREAM_DOMAIN_TAG.as_bytes(), secret_bytes.as_slice());
    let keystream = blake2b_512_digest(message.as_slice());
    xor_keystream(bytes, &keystream)
}

/// Adds a key stream to 34 bytes: each byte with the byte of the key
/// stream at its place.
pub fn xor_keystream(bytes: &[u8; 34], keystream: &[u8; 64]) -> (out: [u8; 34])
    ensures
        out@ == xor_bytes(bytes@, keystream@),
{
    let mut out = [0u8;34];
    let mut i: usize = 0;
    while i < 34
        invariant
            i <= 34,
            forall|j: int| 0 <= j < i ==> out@[j] == bytes@[j] ^ keystream@[j],
        decreases 34 - i,
    {
        out[i] = bytes[i] ^ keystream[i];
        i = i + 1;
    }
    proof {
        assert(out@ =~= xor_bytes(bytes@, keystream@));
    }
    out
}

/// Adding one key stream twice gives the bytes back: decryption undoes
/// encryption under the same shared secret.
pub proof fn lemma_xor_twice(bytes: Seq<u8>, keystream: Seq<u8>)
    ensures
        xor_bytes(xor_bytes(bytes, keystream), keystream) == bytes,
{
    let once = xor_bytes(bytes, keystream);
    let twice = xor_bytes(once, keystream);
    assert forall|i: int| 0 <= i < bytes.len() implies twice[i] == bytes[i] by {
        let b = bytes[i];
        let k = keystream[i];
        assert((b ^ k) ^ k == b) by (bit_vector);
    }
    assert(twice =~= bytes);
}

} // verus!
