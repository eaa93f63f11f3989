//! Transactions: outputs, inputs with their membership proofs, the prefix
//! that is signed, and the hashes that identify them.

use vstd::prelude::*;
use vstd::std_specs::convert::{FromSpecImpl, TryFromSpecImpl};
use vstd::string::StringSliceAdditionalSpecFns;
use crate::account_keys::PublicAddress;
use crate::amount::{lemma_get_value_recovers, Amount, AmountError};
use crate::constants::{MAX_TINY_MOB, MEMO_LEN};
use crate::codec::Message;
use crate::digestible::Digestible;
use crate::domain_separators::{AMOUNT_BLINDING_DOMAIN_TAG, TXOUT_CONFIRMATION_NUMBER_DOMAIN_TAG};
use crate::encoding::{bytes32_equal, copy_range, join_bytes, le_value, to_array, vec_of};
use crate::encrypted_fog_hint::EncryptedFogHint;
use crate::hashes::{blake2b_256, blake2b_256_digest, blake2b_512, blake2b_512_digest};
use crate::membership_proofs::Range;
use crate::memo::{lemma_xor_twice, memo_keystream, xor_bytes, LengthError, MemoPayload};
use crate::onetime_keys::{
    create_onetime_public_key, create_shared_secret, create_tx_public_key,
    get_tx_out_shared_secret, onetime_public_key,
};
use crate::ring_signature::{Blinding, Commitment, KeyImage, RingSignature};
use crate::ristretto::{ristretto_mul, CompressedRistrettoPublic, RistrettoPrivate, RistrettoPublic};
use crate::scalar::{group_order, Scalar};
use crate::transcript::{digest32_of, DigestTranscript};

verus! {

/// Hash of a transaction or of its prefix.
#[derive(Clone, Copy, Debug, Default, PartialEq, Eq, PartialOrd, Ord, Hash)]
pub struct TxHash(pub [u8; 32]);

impl View for TxHash {
    type V = Seq<u8>;

    open spec fn view(&self) -> Seq<u8> {
        self.0@
    }
}

impl TxHash {
    /// Copies `self` to a new vector.
    pub fn to_vec(&self) -> (v: Vec<u8>)
        ensures
            v@ == self@,
    {
        vec_of(self.0.as_slice())
    }

    /// A reference to the underlying byte array.
    pub fn as_bytes(&self) -> (bytes: &[u8; 32])
        ensures
            *bytes == self.0,
    {
        &self.0
    }
}

impl From<&[u8; 32]> for TxHash {
    fn from(a: &[u8; 32]) -> (hash: TxHash) {
        TxHash(*a)
    }
}

impl FromSpecImpl<&[u8; 32]> for TxHash {
    open spec fn obeys_from_spec() -> bool {
        true
    }

    open spec fn from_spec(a: &[u8; 32]) -> TxHash {
        TxHash(*a)
    }
}

impl From<[u8; 32]> for TxHash {
    fn from(a: [u8; 32]) -> (hash: TxHash) {
        TxHash(a)
    }
}

impl FromSpecImpl<[u8; 32]> for TxHash {
    open spec fn obeys_from_spec() -> bool {
        true
    }

    open spec fn from_spec(a: [u8; 32]) -> TxHash {
        TxHash(a)
    }
}

impl<'bytes> TryFrom<&'bytes [u8]> for TxHash {
    type Error = ();

    /// The hash with the bytes of `src`, where `src` holds 32 bytes.
    fn try_from(src: &'bytes [u8]) -> (r: Result<TxHash, ()>)
        ensures
            src@.len() == 32 ==> r is Ok && r->Ok_0@ == src@,
            src@.len() != 32 ==> r is Err,
    {
        match to_array::<32>(src) {
            Some(bytes) => {
                proof {
                    let hash = TxHash(bytes);
                    assert(hash@ == src@);
                    assert(exists|h: TxHash| h@ == src@);
                    assert(hash_of_bytes(src@).0 =~= hash.0);
                }
                Ok(TxHash(bytes))
            },
            None => Err(()),
        }
    }
}

impl<'bytes> TryFromSpecImpl<&'bytes [u8]> for TxHash {
    open spec fn obeys_try_from_spec() -> bool {
        true
    }

    open spec fn try_from_spec(src: &'bytes [u8]) -> Result<TxHash, ()> {
        if src@.len() == 32 {
            Ok(hash_of_bytes(src@))
        } else {
            Err(())
        }
    }
}

/// The hash whose bytes are `bytes`.
pub closed spec fn hash_of_bytes(bytes: Seq<u8>) -> TxHash {
    choose|hash: TxHash| hash@ == bytes
}

/// The lower-case hexadecimal digit of a number below 16.
pub open spec fn hex_digit(d: u8) -> char {
    if d < 10 {
        ((48 + d) as u8) as char
    } else {
        ((87 + d) as u8) as char
    }
}

/// The bytes in lower-case hexadecimal, two digits to a byte.
pub open spec fn hex_chars(bytes: Seq<u8>) -> Seq<char> {
    Seq::new(
        2 * bytes.len(),
        |i: int|
            hex_digit(
                if i % 2 == 0 {
                    bytes[i / 2] / 16
                } else {
                    bytes[i / 2] % 16
                },
            ),
    )
}

/// Formats the bytes with `hex_fmt::HexFmt`. Trusted: without a width, it
/// writes every byte as two lower-case hexadecimal digits.
#[verifier::external_body]
fn hex_string(bytes: &[u8]) -> (text: String)
    ensures
        text@ == hex_chars(bytes@),
{
    format!("{}", hex_fmt::HexFmt(bytes))
}

impl TxHash {
    /// The hash as it is shown: its first six bytes in hexadecimal.
    pub fn to_string(&self) -> (text: String)
        ensures
            text@ == hex_chars(self@.subrange(0, 6)),
    {
        let shown = copy_range(self.0.as_slice(), 0, 6);
        hex_string(shown.as_slice())
    }
}

/// A hash in a membership proof.
#[derive(Clone, Copy, Debug, Default, PartialEq, Eq, Ord, Hash)]
pub struct TxOutMembershipHash(pub [u8; 32]);

impl View for TxOutMembershipHash {
    type V = Seq<u8>;

    open spec fn view(&self) -> Seq<u8> {
        self.0@
    }
}

impl TxOutMembershipHash {
    /// Copies self into a new vector.
    pub fn to_vec(&self) -> (v: Vec<u8>)
        ensures
            v@ == self@,
    {
        vec_of(self.0.as_slice())
    }

    /// A reference to the underlying byte array.
    pub fn as_ref(&self) -> (bytes: &[u8; 32])
        ensures
            *bytes == self.0,
    {
        &self.0
    }

    /// The hash with the given bytes.
    pub fn from_bytes(src: &[u8; 32]) -> (hash: TxOutMembershipHash)
        ensures
            hash.0 == *src,
    {
        TxOutMembershipHash(*src)
    }

    /// The bytes of the hash.
    pub fn to_bytes(&self) -> (bytes: [u8; 32])
        ensures
            bytes == self.0,
    {
        self.0
    }
}

impl From<&[u8; 32]> for TxOutMembershipHash {
    fn from(src: &[u8; 32]) -> (hash: TxOutMembershipHash) {
        TxOutMembershipHash(*src)
    }
}

impl FromSpecImpl<&[u8; 32]> for TxOutMembershipHash {
    open spec fn obeys_from_spec() -> bool {
        true
    }

    open spec fn from_spec(src: &[u8; 32]) -> TxOutMembershipHash {
        TxOutMembershipHash(*src)
    }
}

impl From<[u8; 32]> for TxOutMembershipHash {
    fn from(src: [u8; 32]) -> (hash: TxOutMembershipHash) {
        TxOutMembershipHash(src)
    }
}

impl FromSpecImpl<[u8; 32]> for TxOutMembershipHash {
    open spec fn obeys_from_spec() -> bool {
        true
    }

    open spec fn from_spec(src: [u8; 32]) -> TxOutMembershipHash {
        TxOutMembershipHash(src)
    }
}

/// An element of a membership proof: an inner node of the ledger's Merkle
/// tree.
#[derive(Clone, Copy, Debug, Default, PartialEq, Eq, Ord, Hash)]
pub struct TxOutMembershipElement {
    /// The range of leaves under this node.
    pub range: Range,
    /// The hash of the node.
    pub hash: TxOutMembershipHash,
}

impl TxOutMembershipElement {
    /// The element with the given range and hash.
    pub fn new(range: Range, hash: [u8; 32]) -> (element: TxOutMembershipElement)
        ensures
            element.range == range,
            element.hash.0 == hash,
    {
        TxOutMembershipElement { range, hash: TxOutMembershipHash::from(hash) }
    }
}

/// A Merkle proof of membership for the output at `index`: the hashes that
/// are needed, beside the output's own, to compute the root of the tree.
#[derive(Clone, Debug, Default, PartialEq, Eq)]
pub struct TxOutMembershipProof {
    /// Index of the output that this proof refers to.
    pub index: u64,
    /// Index of the last output at the time the proof was created.
    pub highest_index: u64,
    /// The hashes, in the order in which they are combined: from the
    /// sibling of the leaf up to the sibling below the root.
    pub elements: Vec<TxOutMembershipElement>,
}

impl TxOutMembershipProof {
    /// The proof with the given index, highest index and elements.
    pub fn new(index: u64, highest_index: u64, elements: Vec<TxOutMembershipElement>) -> (proof_of:
        TxOutMembershipProof)
        ensures
            proof_of.index == index,
            proof_of.highest_index == highest_index,
            proof_of.elements == elements,
    {
        TxOutMembershipProof { index, highest_index, elements }
    }

    /// The structure that a proof must have: the index lies in the tree,
    /// every range holds a leaf, and every range is strictly narrower than
    /// the next.
    pub open spec fn is_well_formed(self) -> bool {
        &&& self.index <= self.highest_index
        &&& forall|i: int|
            0 <= i < self.elements@.len() ==> (#[trigger] self.elements@[i]).range.is_well_formed()
        &&& forall|i: int|
            0 <= i < self.elements@.len() - 1 ==> (#[trigger] self.elements@[i]).range.width()
                < self.elements@[i + 1].range.width()
    }

    /// Whether the proof has the structure that a proof must have.
    pub fn check_well_formed(&self) -> (ok: bool)
        ensures
            ok == self.is_well_formed(),
    {
        if self.index > self.highest_index {
            return false;
        }
        let n = self.elements.len();
        let mut i: usize = 0;
        while i < n
            invariant
                i <= n,
                n == self.elements@.len(),
                self.index <= self.highest_index,
                forall|j: int|
                    0 <= j < i ==> (#[trigger] self.elements@[j]).range.is_well_formed(),
                forall|j: int|
                    0 <= j < i - 1 ==> (#[trigger] self.elements@[j]).range.width()
                        < self.elements@[j + 1].range.width(),
            decreases n - i,
        {
            if !self.elements[i].range.check_well_formed() {
                return false;
            }
            if i > 0 {
                if !self.elements[i - 1].range.is_narrower_than(&self.elements[i].range) {
                    assert(!(self.elements@[i - 1].range.width() < self.elements@[i - 1
                        + 1].range.width()));
                    return false;
                }
            }
            i = i + 1;
        }
        true
    }
}

/// The integer of the blinding of an output with shared secret `secret`:
/// the tagged BLAKE2b-512 digest of the secret, reduced modulo the group
/// order.
pub open spec fn amount_blinding(secret: Seq<u8>) -> nat {
    le_value(blake2b_512(AMOUNT_BLINDING_DOMAIN_TAG.spec_bytes() + secret)) % group_order()
}

/// The blinding of an output, derived from its shared secret.
pub fn get_amount_blinding(shared_secret: &RistrettoPublic) -> (blinding: Blinding)
    ensures
        blinding@ == amount_blinding(shared_secret@),
        blinding.scalar.is_canonical(),
{
    let secret_bytes = shared_secret.to_bytes();
    let message = join_bytes(AMOUNT_BLINDING_DOMAIN_TAG.as_bytes(), secret_bytes.as_slice());
    let digest = blake2b_512_digest(message.as_slice());
    Blinding::from(Scalar::from_bytes_mod_order_wide(&digest))
}

/// An output created by a transaction.
#[derive(Clone, Debug, PartialEq, Eq, Hash)]
pub struct TxOut {
    /// The amount being sent.
    pub amount: Amount,
    /// The one-time public address of this output.
    pub target_key: CompressedRistrettoPublic,
    /// The public key of this output.
    pub public_key: CompressedRistrettoPublic,
    /// The encrypted fog hint for the fog server.
    pub e_fog_hint: EncryptedFogHint,
    /// The encrypted memo: 34 bytes, or none in an output from before
    /// there were memos.
    pub e_memo: Vec<u8>,
}

impl TxOut {
    /// The output is the one that sends `value` to the address with view
    /// key `view_key` and spend key `spend_key`, under the private key `r`,
    /// with the given hint and memo.
    pub open spec fn sends(
        self,
        value: u64,
        view_key: Seq<u8>,
        spend_key: Seq<u8>,
        r: nat,
        hint: EncryptedFogHint,
        memo: Seq<u8>,
    ) -> bool {
        let secret = ristretto_mul(r, view_key);
        &&& self.target_key@ == onetime_public_key(r, view_key, spend_key)
        &&& self.public_key@ == ristretto_mul(r, spend_key)
        &&& self.amount.commits_to(value, amount_blinding(secret), secret)
        &&& self.e_fog_hint == hint
        &&& self.e_memo@ == xor_bytes(memo, memo_keystream(secret))
    }

    /// Creates an output that sends `value` to `recipient`: its one-time
    /// target key, its public key, the amount committed and masked under
    /// the shared secret of `tx_private_key` and the recipient's view key,
    /// and the memo encrypted under that secret. A value above
    /// `MAX_TINY_MOB` is refused.
    pub fn new(
        value: u64,
        recipient: &PublicAddress,
        tx_private_key: &RistrettoPrivate,
        hint: EncryptedFogHint,
        memo: MemoPayload,
    ) -> (r: Result<TxOut, AmountError>)
        ensures
            value > MAX_TINY_MOB ==> r == Err::<TxOut, AmountError>(
                AmountError::ExceedsLimit(value),
            ),
            value <= MAX_TINY_MOB ==> r is Ok && r->Ok_0.sends(
                value,
                recipient.view_public_key@,
                recipient.spend_public_key@,
                tx_private_key@,
                hint,
                memo@,
            ),
    {
        let target_key = CompressedRistrettoPublic::from_public(
            &create_onetime_public_key(tx_private_key, recipient),
        );
        let public_key = CompressedRistrettoPublic::from_public(
            &create_tx_public_key(tx_private_key, recipient.spend_public_key()),
        );
        let shared_secret = create_shared_secret(recipient.view_public_key(), tx_private_key);
        let blinding = get_amount_blinding(&shared_secret);
        let amount = match Amount::new(value, blinding, &shared_secret) {
            Ok(amount) => amount,
            Err(e) => {
                return Err(e);
            },
        };
        let e_memo = memo.encrypt(&shared_secret);
        Ok(
            TxOut {
                amount,
                target_key,
                public_key,
                e_fog_hint: hint,
                e_memo: vec_of(e_memo.as_slice()),
            },
        )
    }

    /// The hash of the output.
    pub open spec fn spec_hash(self) -> Seq<u8> {
        digest32_of(TxOut::messages("txout".spec_bytes(), self.value()))
    }

    /// A hash of this output, by transcript, under the tag `txout`.
    pub fn hash(&self) -> (hash: [u8; 32])
        requires
            TxOut::is_digestible(self.value()),
        ensures
            hash@ == self.spec_hash(),
    {
        let mut transcript = DigestTranscript::new();
        self.append_to_transcript("txout", &mut transcript);
        transcript.extract_digest()
    }

    /// Try to decrypt the `e_memo` field, using the output's shared secret.
    ///
    /// An output without a memo gives the unused memo. An output with a
    /// memo of 34 bytes gives what these decrypt to. Any other length is an
    /// error. The result is not authenticated.
    pub fn try_decrypt_memo(&self, tx_out_shared_secret: &RistrettoPublic) -> (r: Result<
        MemoPayload,
        LengthError,
    >)
        ensures
            self.e_memo@.len() == 0 ==> r is Ok && r->Ok_0@ == Seq::new(34, |i: int| 0u8),
            self.e_memo@.len() == MEMO_LEN ==> r is Ok && r->Ok_0@ == xor_bytes(
                self.e_memo@,
                memo_keystream(tx_out_shared_secret@),
            ),
            self.e_memo@.len() != 0 && self.e_memo@.len() != MEMO_LEN ==> r == Err::<
                MemoPayload,
                LengthError,
            >(LengthError { expected: MEMO_LEN, found: self.e_memo@.len() as usize }),
    {
        if self.e_memo.len() == 0 {
            Ok(MemoPayload::default())
        } else {
            MemoPayload::try_decrypt(self.e_memo.as_slice(), tx_out_shared_secret)
        }
    }
}

/// An input to a transaction.
#[derive(Clone, Debug, PartialEq, Eq)]
pub struct TxIn {
    /// A ring of outputs that holds the one output that is being spent.
    pub ring: Vec<TxOut>,
    /// Proof that each output in `ring` is in the ledger.
    pub proofs: Vec<TxOutMembershipProof>,
}

/// The `highest_index` of each proof of `proofs`, in order.
pub open spec fn proof_highest_indices(proofs: Seq<TxOutMembershipProof>) -> Seq<u64> {
    Seq::new(proofs.len(), |i: int| proofs[i].highest_index)
}

/// The `highest_index` of each proof of each input of `inputs`, in the
/// order in which they are met.
pub open spec fn input_highest_indices(inputs: Seq<TxIn>) -> Seq<u64>
    decreases inputs.len(),
{
    if inputs.len() == 0 {
        Seq::empty()
    } else {
        input_highest_indices(inputs.drop_last()) + proof_highest_indices(inputs.last().proofs@)
    }
}

/// The transaction without its signature: what is signed.
#[derive(Clone, Debug, PartialEq, Eq)]
pub struct TxPrefix {
    /// List of inputs to the transaction.
    pub inputs: Vec<TxIn>,
    /// List of outputs from the transaction.
    pub outputs: Vec<TxOut>,
    /// Fee paid to the foundation for this transaction.
    pub fee: u64,
    /// The block index at which this transaction is no longer valid.
    pub tombstone_block: u64,
}

impl TxPrefix {
    /// The hash of the prefix: what the signature signs.
    pub open spec fn spec_hash(self) -> Seq<u8> {
        digest32_of(TxPrefix::messages("tx-prefix".spec_bytes(), self.value()))
    }

    /// Hash of `self`, by transcript, under the tag `tx-prefix`.
    pub fn hash(&self) -> (hash: TxHash)
        requires
            TxPrefix::is_digestible(self.value()),
        ensures
            hash@ == self.spec_hash(),
    {
        let mut transcript = DigestTranscript::new();
        self.append_to_transcript("tx-prefix", &mut transcript);
        TxHash::from(transcript.extract_digest())
    }

    /// Create a new prefix from inputs, outputs, fee and tombstone block.
    pub fn new(inputs: Vec<TxIn>, outputs: Vec<TxOut>, fee: u64, tombstone_block: u64) -> (prefix:
        TxPrefix)
        ensures
            prefix.inputs == inputs,
            prefix.outputs == outputs,
            prefix.fee == fee,
            prefix.tombstone_block == tombstone_block,
    {
        TxPrefix { inputs, outputs, fee, tombstone_block }
    }

    /// Return the `highest_index` of each membership proof in this
    /// transaction, input by input.
    pub fn get_membership_proof_highest_indices(&self) -> (indices: Vec<u64>)
        ensures
            indices@ == input_highest_indices(self.inputs@),
    {
        let mut indices: Vec<u64> = Vec::new();
        let mut i: usize = 0;
        proof {
            assert(self.inputs@.subrange(0, 0) =~= Seq::<TxIn>::empty());
        }
        while i < self.inputs.len()
            invariant
                i <= self.inputs@.len(),
                indices@ == input_highest_indices(self.inputs@.subrange(0, i as int)),
            decreases self.inputs@.len() - i,
        {
            let tx_in = &self.inputs[i];
            let ghost before = indices@;
            let mut j: usize = 0;
            while j < tx_in.proofs.len()
                invariant
                    j <= tx_in.proofs@.len(),
                    indices@.len() == before.len() + j,
                    forall|k: int| 0 <= k < before.len() ==> indices@[k] == before[k],
                    forall|k: int|
                        0 <= k < j ==> indices@[before.len() + k] == tx_in.proofs@[k].highest_index,
                decreases tx_in.proofs@.len() - j,
            {
                indices.push(tx_in.proofs[j].highest_index);
                j = j + 1;
            }
            i = i + 1;
            proof {
                let upto = self.inputs@.subrange(0, i as int);
                assert(upto.drop_last() =~= self.inputs@.subrange(0, i - 1));
                assert(upto.last() == *tx_in);
                assert(indices@ =~= before + proof_highest_indices(tx_in.proofs@));
            }
        }
        proof {
            assert(self.inputs@.subrange(0, self.inputs@.len() as int) =~= self.inputs@);
        }
        indices
    }

    /// Get all output commitments, in the order of the outputs.
    pub fn output_commitments(&self) -> (commitments: Vec<Commitment>)
        ensures
            commitments@ == Seq::new(
                self.outputs@.len(),
                |i: int| self.outputs@[i].amount.commitment,
            ),
    {
        let mut commitments: Vec<Commitment> = Vec::new();
        let mut i: usize = 0;
        while i < self.outputs.len()
            invariant
                i <= self.outputs@.len(),
                commitments@.len() == i,
                forall|j: int| 0 <= j < i ==> commitments@[j] == self.outputs@[j].amount.commitment,
            decreases self.outputs@.len() - i,
        {
            commitments.push(self.outputs[i].amount.commitment);
            i = i + 1;
        }
        proof {
            assert(commitments@ =~= Seq::new(
                self.outputs@.len(),
                |i: int| self.outputs@[i].amount.commitment,
            ));
        }
        commitments
    }
}

/// A transaction.
#[derive(Clone, Debug, PartialEq, Eq)]
pub struct Tx {
    /// The transaction contents.
    pub prefix: TxPrefix,
    /// The transaction signature.
    pub signature: RingSignature,
}

impl Tx {
    /// The hash of the transaction: its identity in the ledger.
    pub open spec fn spec_tx_hash(self) -> Seq<u8> {
        digest32_of(Tx::messages("tx".spec_bytes(), self.value()))
    }

    /// Compute a 32-byte hash from all of the contents of a transaction, by
    /// transcript, under the tag `tx`.
    pub fn tx_hash(&self) -> (hash: TxHash)
        requires
            Tx::is_digestible(self.value()),
        ensures
            hash@ == self.spec_tx_hash(),
    {
        let mut transcript = DigestTranscript::new();
        self.append_to_transcript("tx", &mut transcript);
        TxHash::from(transcript.extract_digest())
    }

    /// The transaction as it is shown: as its hash is.
    pub fn to_string(&self) -> (text: String)
        requires
            Tx::is_digestible(self.value()),
        ensures
            text@ == hex_chars(self.spec_tx_hash().subrange(0, 6)),
    {
        self.tx_hash().to_string()
    }

    /// Key images spent by this transaction.
    pub fn key_images(&self) -> (images: Vec<KeyImage>)
        ensures
            images@ == self.signature.key_images@,
    {
        self.signature.key_images()
    }

    /// Get the highest index of each membership proof referenced by the
    /// transaction.
    pub fn get_membership_proof_highest_indices(&self) -> (indices: Vec<u64>)
        ensures
            indices@ == input_highest_indices(self.prefix.inputs@),
    {
        self.prefix.get_membership_proof_highest_indices()
    }

    /// Output public keys contained in this transaction, in the order of
    /// the outputs.
    pub fn output_public_keys(&self) -> (keys: Vec<CompressedRistrettoPublic>)
        ensures
            keys@ == Seq::new(
                self.prefix.outputs@.len(),
                |i: int| self.prefix.outputs@[i].public_key,
            ),
    {
        let mut keys: Vec<CompressedRistrettoPublic> = Vec::new();
        let mut i: usize = 0;
        while i < self.prefix.outputs.len()
            invariant
                i <= self.prefix.outputs@.len(),
                keys@.len() == i,
                forall|j: int| 0 <= j < i ==> keys@[j] == self.prefix.outputs@[j].public_key,
            decreases self.prefix.outputs@.len() - i,
        {
            keys.push(self.prefix.outputs[i].public_key);
            i = i + 1;
        }
        proof {
            assert(keys@ =~= Seq::new(
                self.prefix.outputs@.len(),
                |i: int| self.prefix.outputs@[i].public_key,
            ));
        }
        keys
    }
}

/// The confirmation number of the output with shared secret `secret`: the
/// tagged BLAKE2b-256 digest of the secret.
pub open spec fn confirmation_number_of(secret: Seq<u8>) -> Seq<u8> {
    blake2b_256(TXOUT_CONFIRMATION_NUMBER_DOMAIN_TAG.spec_bytes() + secret)
}

/// A hash of the shared secret of an output, by which its sender shows the
/// recipient that the output was sent.
#[derive(Clone, Copy, Debug, Default, PartialEq, Eq, PartialOrd, Ord, Hash)]
pub struct TxOutConfirmationNumber([u8; 32]);

impl View for TxOutConfirmationNumber {
    type V = Seq<u8>;

    closed spec fn view(&self) -> Seq<u8> {
        self.0@
    }
}

impl TxOutConfirmationNumber {
    /// Copies self into a new vector.
    pub fn to_vec(&self) -> (v: Vec<u8>)
        ensures
            v@ == self@,
    {
        vec_of(self.0.as_slice())
    }

    /// Whether this is the confirmation number of the output with public
    /// key `tx_pubkey` for the recipient with private view key
    /// `view_private_key`. The comparison does not stop at the first byte
    /// that differs.
    pub fn validate(&self, tx_pubkey: &RistrettoPublic, view_private_key: &RistrettoPrivate) -> (valid:
        bool)
        ensures
            valid == (self@ == confirmation_number_of(
                ristretto_mul(view_private_key@, tx_pubkey@),
            )),
    {
        let shared_secret = get_tx_out_shared_secret(view_private_key, tx_pubkey);
        let calculated_confirmation = TxOutConfirmationNumber::from(&shared_secret);
        bytes32_equal(&calculated_confirmation.0, &self.0)
    }

    /// A reference to the underlying byte array.
    pub fn as_ref(&self) -> (bytes: &[u8; 32])
        ensures
            bytes@ == self@,
    {
        &self.0
    }

    /// The confirmation number with the given bytes.
    pub fn from_bytes(src: &[u8; 32]) -> (number: TxOutConfirmationNumber)
        ensures
            number@ == src@,
    {
        TxOutConfirmationNumber(*src)
    }

    /// The bytes of the confirmation number.
    pub fn to_bytes(&self) -> (bytes: [u8; 32])
        ensures
            bytes@ == self@,
    {
        self.0
    }
}

impl From<&[u8; 32]> for TxOutConfirmationNumber {
    fn from(src: &[u8; 32]) -> (number: TxOutConfirmationNumber) {
        TxOutConfirmationNumber(*src)
    }
}

impl FromSpecImpl<&[u8; 32]> for TxOutConfirmationNumber {
    open spec fn obeys_from_spec() -> bool {
        true
    }

    closed spec fn from_spec(src: &[u8; 32]) -> TxOutConfirmationNumber {
        TxOutConfirmationNumber(*src)
    }
}

impl From<[u8; 32]> for TxOutConfirmationNumber {
    fn from(src: [u8; 32]) -> (number: TxOutConfirmationNumber) {
        TxOutConfirmationNumber(src)
    }
}

impl FromSpecImpl<[u8; 32]> for TxOutConfirmationNumber {
    open spec fn obeys_from_spec() -> bool {
        true
    }

    closed spec fn from_spec(src: [u8; 32]) -> TxOutConfirmationNumber {
        TxOutConfirmationNumber(src)
    }
}

impl From<&RistrettoPublic> for TxOutConfirmationNumber {
    /// The confirmation number of the output with the given shared secret.
    fn from(shared_secret: &RistrettoPublic) -> (number: TxOutConfirmationNumber)
        ensures
            number@ == confirmation_number_of(shared_secret@),
    {
        let secret_bytes = shared_secret.to_bytes();
        let message = join_bytes(
            TXOUT_CONFIRMATION_NUMBER_DOMAIN_TAG.as_bytes(),
            secret_bytes.as_slice(),
        );
        let number = TxOutConfirmationNumber(blake2b_256_digest(message.as_slice()));
        proof {
            let wanted = confirmation_number_of(shared_secret@);
            assert(number@ == wanted);
            assert(exists|n: TxOutConfirmationNumber| n@ == wanted);
            let chosen = chosen_confirmation_number(shared_secret@);
            assert(chosen@ == confirmation_number_of(shared_secret@));
            assert(chosen.0 =~= number.0);
        }
        number
    }
}

impl FromSpecImpl<&RistrettoPublic> for TxOutConfirmationNumber {
    open spec fn obeys_from_spec() -> bool {
        true
    }

    closed spec fn from_spec(shared_secret: &RistrettoPublic) -> TxOutConfirmationNumber {
        chosen_confirmation_number(shared_secret@)
    }
}

/// The confirmation number whose bytes are those of the output with shared
/// secret `secret`.
pub closed spec fn chosen_confirmation_number(secret: Seq<u8>) -> TxOutConfirmationNumber {
    choose|number: TxOutConfirmationNumber| number@ == confirmation_number_of(secret)
}

/// The recipient of an output recovers what was sent: under the shared
/// secret, the amount unmasks to the value and agrees with its commitment,
/// and the memo decrypts to the memo.
pub proof fn lemma_tx_out_recovers(
    tx_out: TxOut,
    value: u64,
    view_key: Seq<u8>,
    spend_key: Seq<u8>,
    r: nat,
    hint: EncryptedFogHint,
    memo: Seq<u8>,
)
    requires
        tx_out.sends(value, view_key, spend_key, r, hint, memo),
    ensures
        tx_out.amount.opens_under(ristretto_mul(r, view_key)),
        tx_out.amount.unmasked_value(ristretto_mul(r, view_key)) == value,
        xor_bytes(tx_out.e_memo@, memo_keystream(ristretto_mul(r, view_key))) == memo,
{
    let secret = ristretto_mul(r, view_key);
    lemma_get_value_recovers(tx_out.amount, value, amount_blinding(secret), secret);
    lemma_xor_twice(memo, memo_keystream(secret));
}

/// The confirmation number that is derived from the shared secret of a
/// recipient's private view key and an output's public key validates under
/// that key pair.
pub proof fn lemma_confirmation_validates(
    number: TxOutConfirmationNumber,
    tx_pubkey: Seq<u8>,
    view_private_key: nat,
)
    requires
        number@ == confirmation_number_of(ristretto_mul(view_private_key, tx_pubkey)),
    ensures
        validates(number, tx_pubkey, view_private_key),
{
}

/// What `validate` decides.
pub open spec fn validates(
    number: TxOutConfirmationNumber,
    tx_pubkey: Seq<u8>,
    view_private_key: nat,
) -> bool {
    number@ == confirmation_number_of(ristretto_mul(view_private_key, tx_pubkey))
}

} // verus!
