use curve25519_dalek::constants::RISTRETTO_BASEPOINT_POINT;
use curve25519_dalek::scalar::Scalar as DalekScalar;
use merlin::Transcript;
use transaction_core::account_keys::PublicAddress;
use transaction_core::constants::MINIMUM_FEE;
use transaction_core::digestible::{check_seq_digestible, Digestible};
use transaction_core::encrypted_fog_hint::EncryptedFogHint;
use transaction_core::membership_proofs::Range;
use transaction_core::memo::MemoPayload;
use transaction_core::ring_signature::{KeyImage, RingSignature};
use transaction_core::ristretto::{RistrettoPrivate, RistrettoPublic};
use transaction_core::scalar::Scalar;
use transaction_core::transcript::{u64_le_bytes, DigestTranscript};
use transaction_core::tx::{
    Tx, TxIn, TxOut, TxOutMembershipElement, TxOutMembershipProof, TxPrefix,
};

fn dalek_scalar(seed: u8) -> DalekScalar {
    let mut wide = [0u8; 64];
    for (i, byte) in wide.iter_mut().enumerate() {
        *byte = seed.wrapping_mul(41).wrapping_add((i as u8).wrapping_mul(3));
    }
    DalekScalar::from_bytes_mod_order_wide(&wide)
}

fn private(seed: u8) -> RistrettoPrivate {
    RistrettoPrivate::from_scalar(Scalar::from_canonical_bytes(dalek_scalar(seed).to_bytes()).unwrap())
}

fn point(seed: u8) -> RistrettoPublic {
    let p = dalek_scalar(seed) * RISTRETTO_BASEPOINT_POINT;
    RistrettoPublic::try_from_bytes(&p.compress().to_bytes()).unwrap()
}

fn tx_out(value: u64, key: u8) -> TxOut {
    let recipient = PublicAddress::new(&point(10), &point(11));
    TxOut::new(
        value,
        &recipient,
        &private(key),
        EncryptedFogHint::from(&[key; 84]),
        MemoPayload::new([0, 1], [key; 32]),
    )
    .unwrap()
}

fn tx(tombstone_block: u64) -> Tx {
    let proof = TxOutMembershipProof::new(
        2,
        7,
        vec![TxOutMembershipElement::new(Range::new(2, 3).unwrap(), [1; 32])],
    );
    Tx {
        prefix: TxPrefix::new(
            vec![TxIn { ring: vec![tx_out(5, 1)], proofs: vec![proof] }],
            vec![tx_out(7, 3)],
            MINIMUM_FEE,
            tombstone_block,
        ),
        signature: RingSignature {
            key_images: vec![KeyImage { bytes: point(20).to_bytes() }],
            signature_bytes: vec![1, 2, 3],
        },
    }
}

fn absorb_amount(t: &mut Transcript, out: &TxOut) {
    t.append_message(b"amount", b"agg");
    t.append_message(b"name", b"Amount");
    t.append_message(b"commitment", b"prim");
    t.append_message(b"ristretto", &out.amount.commitment.bytes);
    t.append_message(b"masked_value", b"prim");
    t.append_message(b"scalar", &out.amount.masked_value.scalar.to_bytes());
    t.append_message(b"masked_blinding", b"prim");
    t.append_message(b"scalar", &out.amount.masked_blinding.scalar.to_bytes());
    t.append_message(b"amount", b"agg-end");
    t.append_message(b"name", b"Amount");
}

fn absorb_tx_out(t: &mut Transcript, context: &'static [u8], out: &TxOut) {
    t.append_message(context, b"agg");
    t.append_message(b"name", b"TxOut");
    absorb_amount(t, out);
    t.append_message(b"target_key", b"prim");
    t.append_message(b"ristretto", &out.target_key.bytes);
    t.append_message(b"public_key", b"prim");
    t.append_message(b"ristretto", &out.public_key.bytes);
    t.append_message(b"e_fog_hint", b"prim");
    t.append_message(b"bytes", &out.e_fog_hint.bytes);
    t.append_message(b"e_memo", b"prim");
    t.append_message(b"bytes", &out.e_memo);
    t.append_message(context, b"agg-end");
    t.append_message(b"name", b"TxOut");
}

fn absorb_u64(t: &mut Transcript, context: &'static [u8], x: u64) {
    t.append_message(context, b"prim");
    t.append_message(b"uint", &x.to_le_bytes());
}

fn absorb_seq(t: &mut Transcript, context: &'static [u8], len: u64) {
    t.append_message(context, b"seq");
    t.append_message(b"len", &len.to_le_bytes());
}

fn absorb_prefix(t: &mut Transcript, context: &'static [u8], prefix: &TxPrefix) {
    t.append_message(context, b"agg");
    t.append_message(b"name", b"TxPrefix");
    absorb_seq(t, b"inputs", prefix.inputs.len() as u64);
    for input in &prefix.inputs {
        t.append_message(b"", b"agg");
        t.append_message(b"name", b"TxIn");
        absorb_seq(t, b"ring", input.ring.len() as u64);
        for out in &input.ring {
            absorb_tx_out(t, b"", out);
        }
        absorb_seq(t, b"proofs", input.proofs.len() as u64);
        for proof in &input.proofs {
            t.append_message(b"", b"agg");
            t.append_message(b"name", b"TxOutMembershipProof");
            absorb_u64(t, b"index", proof.index);
            absorb_u64(t, b"highest_index", proof.highest_index);
            absorb_seq(t, b"elements", proof.elements.len() as u64);
            for element in &proof.elements {
                t.append_message(b"", b"agg");
                t.append_message(b"name", b"TxOutMembershipElement");
                t.append_message(b"range", b"agg");
                t.append_message(b"name", b"Range");
                absorb_u64(t, b"from", element.range.from);
                absorb_u64(t, b"to", element.range.to);
                t.append_message(b"range", b"agg-end");
                t.append_message(b"name", b"Range");
                t.append_message(b"hash", b"prim");
                t.append_message(b"bytes", &element.hash.0);
                t.append_message(b"", b"agg-end");
                t.append_message(b"name", b"TxOutMembershipElement");
            }
            t.append_message(b"", b"agg-end");
            t.append_message(b"name", b"TxOutMembershipProof");
        }
        t.append_message(b"", b"agg-end");
        t.append_message(b"name", b"TxIn");
    }
    absorb_seq(t, b"outputs", prefix.outputs.len() as u64);
    for out in &prefix.outputs {
        absorb_tx_out(t, b"", out);
    }
    absorb_u64(t, b"fee", prefix.fee);
    absorb_u64(t, b"tombstone_block", prefix.tombstone_block);
    t.append_message(context, b"agg-end");
    t.append_message(b"name", b"TxPrefix");
}

fn challenge(mut t: Transcript) -> [u8; 32] {
    let mut digest = [0u8; 32];
    t.challenge_bytes(b"digest32", &mut digest);
    digest
}

#[test]
fn test_tx_out_hash_is_the_transcript_challenge() {
    let out = tx_out(23, 4);
    let mut t = Transcript::new(b"digestible");
    absorb_tx_out(&mut t, b"txout", &out);
    assert_eq!(out.hash(), challenge(t));
}

#[test]
fn test_tx_out_hash_without_memo() {
    let mut out = tx_out(23, 4);
    let with_memo = out.hash();
    out.e_memo = Vec::new();
    let mut t = Transcript::new(b"digestible");
    absorb_tx_out(&mut t, b"txout", &out);
    assert_eq!(out.hash(), challenge(t));
    assert_ne!(out.hash(), with_memo);
}

#[test]
fn test_prefix_hash_is_the_transcript_challenge() {
    let prefix = tx(23).prefix;
    let mut t = Transcript::new(b"digestible");
    absorb_prefix(&mut t, b"tx-prefix", &prefix);
    assert_eq!(prefix.hash().0, challenge(t));
}

#[test]
fn test_tx_hash_is_the_transcript_challenge() {
    let tx = tx(23);
    let mut t = Transcript::new(b"digestible");
    t.append_message(b"tx", b"agg");
    t.append_message(b"name", b"Tx");
    absorb_prefix(&mut t, b"prefix", &tx.prefix);
    t.append_message(b"signature", b"agg");
    t.append_message(b"name", b"RingSignature");
    absorb_seq(&mut t, b"key_images", 1);
    t.append_message(b"", b"prim");
    t.append_message(b"ristretto", &tx.signature.key_images[0].bytes);
    t.append_message(b"signature_bytes", b"prim");
    t.append_message(b"bytes", &tx.signature.signature_bytes);
    t.append_message(b"signature", b"agg-end");
    t.append_message(b"name", b"RingSignature");
    t.append_message(b"tx", b"agg-end");
    t.append_message(b"name", b"Tx");
    let expected = challenge(t);
    assert_eq!(tx.tx_hash().0, expected);
    assert_eq!(tx.to_string(), tx.tx_hash().to_string());
    assert_eq!(tx.to_string().len(), 12);
}

#[test]
fn test_tx_hash_differs_with_tombstone_block() {
    let a = tx(23);
    let b = tx(24);
    assert_eq!(a.prefix.inputs, b.prefix.inputs);
    assert_eq!(a.prefix.outputs, b.prefix.outputs);
    assert_eq!(a.prefix.fee, b.prefix.fee);
    assert_eq!(a.signature, b.signature);
    assert_ne!(a.tx_hash(), b.tx_hash());
    assert_ne!(a.prefix.hash(), b.prefix.hash());
}

#[test]
fn test_hashes_are_stable_and_bind_every_field() {
    let base = tx(23);
    assert_eq!(base.tx_hash(), tx(23).tx_hash());
    assert_eq!(base.prefix.hash(), tx(23).prefix.hash());
    assert_ne!(base.tx_hash(), base.prefix.hash());

    let mut changed = tx(23);
    changed.prefix.fee += 1;
    assert_ne!(changed.prefix.hash(), base.prefix.hash());

    let mut changed = tx(23);
    changed.prefix.outputs[0].e_fog_hint.bytes[83] ^= 1;
    assert_ne!(changed.prefix.hash(), base.prefix.hash());

    let mut changed = tx(23);
    changed.prefix.outputs.push(tx_out(1, 9));
    assert_ne!(changed.prefix.hash(), base.prefix.hash());

    let mut changed = tx(23);
    changed.prefix.inputs[0].proofs[0].elements[0].hash.0[0] ^= 1;
    assert_ne!(changed.prefix.hash(), base.prefix.hash());

    let mut changed = tx(23);
    changed.prefix.inputs[0].ring[0].amount.commitment.bytes[0] ^= 1;
    assert_ne!(changed.prefix.hash(), base.prefix.hash());

    let mut changed = tx(23);
    changed.prefix.inputs.clear();
    assert_ne!(changed.prefix.hash(), base.prefix.hash());

    let mut changed = tx(23);
    changed.signature.signature_bytes.push(0);
    assert_eq!(changed.prefix.hash(), base.prefix.hash());
    assert_ne!(changed.tx_hash(), base.tx_hash());

    let mut changed = tx(23);
    changed.signature.key_images[0].bytes[5] ^= 1;
    assert_ne!(changed.tx_hash(), base.tx_hash());
}

#[test]
fn test_digest_transcript() {
    let mut ours = DigestTranscript::new();
    ours.append_bytes("one", &[1, 2, 3]);
    ours.append_primitive("two", "bytes", &[]);
    ours.append_u64("three", 0x0102_0304_0506_0708);
    ours.append_byte_string("four", &[4; 100]);
    ours.append_seq_header("five", 5);
    ours.append_agg_header("six", "Six");
    ours.append_agg_closer("six", "Six");

    let mut t = Transcript::new(b"digestible");
    t.append_message(b"one", &[1, 2, 3]);
    t.append_message(b"two", b"prim");
    t.append_message(b"bytes", &[]);
    t.append_message(b"three", b"prim");
    t.append_message(b"uint", &[8, 7, 6, 5, 4, 3, 2, 1]);
    t.append_message(b"four", b"prim");
    t.append_message(b"bytes", &[4; 100]);
    t.append_message(b"five", b"seq");
    t.append_message(b"len", &[5, 0, 0, 0, 0, 0, 0, 0]);
    t.append_message(b"six", b"agg");
    t.append_message(b"name", b"Six");
    t.append_message(b"six", b"agg-end");
    t.append_message(b"name", b"Six");
    assert_eq!(ours.extract_digest(), challenge(t));

    // The order of the messages counts, and so does every label.
    let mut first = DigestTranscript::new();
    first.append_bytes("a", &[1]);
    first.append_bytes("b", &[2]);
    let mut second = DigestTranscript::new();
    second.append_bytes("b", &[2]);
    second.append_bytes("a", &[1]);
    let mut third = DigestTranscript::new();
    third.append_bytes("a", &[1]);
    third.append_bytes("c", &[2]);
    let first = first.extract_digest();
    assert_ne!(first, second.extract_digest());
    assert_ne!(first, third.extract_digest());
    assert_ne!(first, DigestTranscript::new().extract_digest());
}

#[test]
fn test_u64_le_bytes() {
    assert_eq!(u64_le_bytes(0), [0; 8]);
    assert_eq!(u64_le_bytes(1), [1, 0, 0, 0, 0, 0, 0, 0]);
    assert_eq!(u64_le_bytes(0x0102_0304_0506_0708), [8, 7, 6, 5, 4, 3, 2, 1]);
    assert_eq!(u64_le_bytes(u64::MAX), [0xff; 8]);
}

#[test]
fn test_check_digestible() {
    let tx = tx(23);
    assert!(tx.check_digestible());
    assert!(tx.prefix.check_digestible());
    assert!(tx.signature.check_digestible());
    assert!(tx.prefix.outputs[0].check_digestible());
    assert!(tx.prefix.outputs[0].amount.check_digestible());
    assert!(tx.prefix.inputs[0].check_digestible());
    assert!(tx.prefix.inputs[0].proofs[0].check_digestible());
    assert!(tx.signature.key_images[0].check_digestible());
    assert!(check_seq_digestible(&tx.prefix.outputs));
    assert!(check_seq_digestible::<TxOut>(&vec![]));
}

#[test]
fn test_append_to_transcript() {
    let out = tx_out(23, 4);
    let mut ours = DigestTranscript::new();
    out.append_to_transcript("txout", &mut ours);
    assert_eq!(ours.extract_digest(), out.hash());

    let range = Range::new(1, 2).unwrap();
    let mut ours = DigestTranscript::new();
    range.append_to_transcript("range", &mut ours);
    let mut t = Transcript::new(b"digestible");
    t.append_message(b"range", b"agg");
    t.append_message(b"name", b"Range");
    absorb_u64(&mut t, b"from", 1);
    absorb_u64(&mut t, b"to", 2);
    t.append_message(b"range", b"agg-end");
    t.append_message(b"name", b"Range");
    assert_eq!(ours.extract_digest(), challenge(t));
}
