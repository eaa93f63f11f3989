use blake2::Digest;
use curve25519_dalek::constants::RISTRETTO_BASEPOINT_POINT;
use curve25519_dalek::scalar::Scalar as DalekScalar;
use transaction_core::account_keys::PublicAddress;
use transaction_core::amount::{Amount, AmountError};
use transaction_core::constants::{ENCRYPTED_FOG_HINT_LEN, MAX_TINY_MOB, MEMO_LEN, MINIMUM_FEE};
use transaction_core::encrypted_fog_hint::EncryptedFogHint;
use std::cmp::Ordering;
use transaction_core::membership_proofs::{find_first_difference, Range, RangeError};
use transaction_core::memo::{xor_keystream, LengthError, MemoPayload};
use transaction_core::onetime_keys::{
    create_onetime_public_key, create_shared_secret, create_tx_public_key,
};
use transaction_core::ring_signature::{Commitment, KeyImage, RingSignature};
use transaction_core::ristretto::{CompressedRistrettoPublic, RistrettoPrivate, RistrettoPublic};
use transaction_core::scalar::Scalar;
use transaction_core::tx::{
    get_amount_blinding, Tx, TxHash, TxIn, TxOut, TxOutConfirmationNumber,
    TxOutMembershipElement, TxOutMembershipHash, TxOutMembershipProof, TxPrefix,
};

fn dalek_scalar(seed: u8) -> DalekScalar {
    let mut wide = [0u8; 64];
    for (i, byte) in wide.iter_mut().enumerate() {
        *byte = seed.wrapping_mul(37).wrapping_add((i as u8).wrapping_mul(5));
    }
    DalekScalar::from_bytes_mod_order_wide(&wide)
}

fn private(seed: u8) -> RistrettoPrivate {
    RistrettoPrivate::from_scalar(Scalar::from_canonical_bytes(dalek_scalar(seed).to_bytes()).unwrap())
}

fn point(seed: u8) -> RistrettoPublic {
    let p = dalek_scalar(seed) * RISTRETTO_BASEPOINT_POINT;
    RistrettoPublic::try_from_bytes(&p.compress().to_bytes()).unwrap()
}

fn memo(seed: u8) -> MemoPayload {
    let mut data = [0u8; 32];
    for (i, byte) in data.iter_mut().enumerate() {
        *byte = seed.wrapping_add(i as u8);
    }
    MemoPayload::new([1, seed], data)
}

fn hint() -> EncryptedFogHint {
    EncryptedFogHint::from(&[1u8; ENCRYPTED_FOG_HINT_LEN])
}

fn recipient() -> PublicAddress {
    PublicAddress::new(&point(10), &point(11))
}

fn tx_out(value: u64, key: u8) -> TxOut {
    TxOut::new(value, &recipient(), &private(key), hint(), memo(key)).unwrap()
}

fn element(from: u64, to: u64, byte: u8) -> TxOutMembershipElement {
    TxOutMembershipElement::new(Range::new(from, to).unwrap(), [byte; 32])
}

fn proof_of(index: u64, highest_index: u64) -> TxOutMembershipProof {
    TxOutMembershipProof::new(
        index,
        highest_index,
        vec![element(2, 3, 1), element(0, 3, 2), element(0, 7, 3)],
    )
}

fn prefix(tombstone_block: u64) -> TxPrefix {
    let input = TxIn {
        ring: vec![tx_out(5, 1), tx_out(6, 2)],
        proofs: vec![proof_of(2, 7), proof_of(3, 9)],
    };
    TxPrefix::new(vec![input], vec![tx_out(7, 3), tx_out(8, 4)], MINIMUM_FEE, tombstone_block)
}

fn signature() -> RingSignature {
    RingSignature {
        key_images: vec![KeyImage { bytes: point(20).to_bytes() }],
        signature_bytes: vec![9, 8, 7, 6],
    }
}

#[test]
fn test_constants() {
    assert_eq!(MAX_TINY_MOB, 250_000_000_000_000_000);
    assert_eq!(MINIMUM_FEE, 10_000_000_000);
    assert_eq!(ENCRYPTED_FOG_HINT_LEN, 84);
    assert_eq!(MEMO_LEN, 34);
}

#[test]
fn test_tx_out_new() {
    let r = private(1);
    let out = TxOut::new(23, &recipient(), &r, hint(), memo(4)).unwrap();
    let secret = create_shared_secret(recipient().view_public_key(), &r);

    assert_eq!(
        out.target_key,
        CompressedRistrettoPublic::from_public(&create_onetime_public_key(&r, &recipient()))
    );
    assert_eq!(
        out.public_key,
        CompressedRistrettoPublic::from_public(&create_tx_public_key(
            &r,
            recipient().spend_public_key()
        ))
    );
    assert_eq!(out.e_fog_hint, hint());
    assert_eq!(out.e_memo.len(), 34);
    assert_eq!(out.e_memo, memo(4).encrypt(&secret).to_vec());

    let blinding = get_amount_blinding(&secret);
    assert_eq!(out.amount, Amount::new(23, blinding, &secret).unwrap());
    assert_eq!(out.amount.get_value(&secret), Ok((23, blinding)));
}

#[test]
fn test_tx_out_new_exceeds_limit() {
    assert_eq!(
        TxOut::new(MAX_TINY_MOB + 1, &recipient(), &private(1), hint(), memo(4)),
        Err(AmountError::ExceedsLimit(MAX_TINY_MOB + 1))
    );
    assert!(TxOut::new(MAX_TINY_MOB, &recipient(), &private(1), hint(), memo(4)).is_ok());
}

#[test]
fn test_amount_blinding() {
    let secret = point(30);
    let mut hasher = blake2::Blake2b512::new();
    hasher.update(b"mc_amount_blinding");
    hasher.update(secret.to_bytes());
    let digest: [u8; 64] = hasher.finalize().into();
    assert_eq!(
        get_amount_blinding(&secret).scalar.to_bytes(),
        DalekScalar::from_bytes_mod_order_wide(&digest).to_bytes()
    );
}

#[test]
fn test_memo_default_is_unused_memo() {
    assert_eq!(MemoPayload::default().bytes, [0u8; 34]);
    assert_eq!(MemoPayload::default().get_memo_type(), [0, 0]);
    assert_eq!(memo(9).get_memo_type(), [1, 9]);
    assert_eq!(memo(9).bytes[2], 9);
    assert_eq!(memo(9).bytes[33], 40);
}

#[test]
fn test_memo_keystream() {
    let secret = point(31);
    let mut hasher = blake2::Blake2b512::new();
    hasher.update(b"mc_memo_keystream");
    hasher.update(secret.to_bytes());
    let digest: [u8; 64] = hasher.finalize().into();
    let plain = memo(3);
    let encrypted = plain.encrypt(&secret);
    for i in 0..34 {
        assert_eq!(encrypted[i], plain.bytes[i] ^ digest[i]);
    }
    assert_ne!(encrypted, plain.bytes);
}

#[test]
fn test_xor_keystream() {
    let mut bytes = [0u8; 34];
    let mut keystream = [0u8; 64];
    for i in 0..34 {
        bytes[i] = i as u8;
        keystream[i] = 0xf0;
    }
    keystream[40] = 0xff;
    let out = xor_keystream(&bytes, &keystream);
    for i in 0..34 {
        assert_eq!(out[i], (i as u8) ^ 0xf0);
    }
    assert_eq!(xor_keystream(&out, &keystream), bytes);
    assert_eq!(xor_keystream(&bytes, &[0u8; 64]), bytes);
}

#[test]
fn test_memo_round_trip() {
    for seed in 0..10u8 {
        let secret = point(40 + seed);
        let encrypted = memo(seed).encrypt(&secret);
        assert_eq!(MemoPayload::try_decrypt(&encrypted, &secret), Ok(memo(seed)));
        assert_ne!(MemoPayload::try_decrypt(&encrypted, &point(80 + seed)), Ok(memo(seed)));
    }
}

#[test]
fn test_memo_length_error() {
    let secret = point(1);
    for len in [0usize, 1, 5, 33, 35, 66] {
        assert_eq!(
            MemoPayload::try_decrypt(&vec![0u8; len], &secret),
            Err(LengthError { expected: 34, found: len })
        );
    }
}

#[test]
fn test_try_decrypt_memo_without_memo() {
    let mut out = tx_out(1, 1);
    out.e_memo = Vec::new();
    assert_eq!(out.try_decrypt_memo(&point(1)), Ok(MemoPayload::default()));
}

#[test]
fn test_try_decrypt_memo_with_memo() {
    let r = private(6);
    let out = TxOut::new(1, &recipient(), &r, hint(), memo(6)).unwrap();
    let secret = create_shared_secret(recipient().view_public_key(), &r);
    assert_eq!(out.try_decrypt_memo(&secret), Ok(memo(6)));
}

#[test]
fn test_try_decrypt_memo_of_length_5() {
    let mut out = tx_out(1, 1);
    out.e_memo = vec![1, 2, 3, 4, 5];
    assert_eq!(
        out.try_decrypt_memo(&point(1)),
        Err(LengthError { expected: 34, found: 5 })
    );
}

#[test]
fn test_confirmation_number() {
    let secret = point(7);
    let mut hasher = blake2::Blake2b::<blake2::digest::consts::U32>::new();
    hasher.update(b"mc_tx_out_confirmation_number");
    hasher.update(secret.to_bytes());
    let digest: [u8; 32] = hasher.finalize().into();
    let number = TxOutConfirmationNumber::from(&secret);
    assert_eq!(number.to_bytes(), digest);
    assert_eq!(number.to_vec(), digest.to_vec());
    assert_eq!(number.as_ref(), &digest);
    assert_eq!(TxOutConfirmationNumber::from(digest), number);
    assert_eq!(TxOutConfirmationNumber::from(&digest), number);
    assert_eq!(TxOutConfirmationNumber::from_bytes(&digest), number);
}

#[test]
fn test_confirmation_number_validates() {
    // The sender derives the number from r * (a * G); the recipient
    // validates it with a and r * G.
    let tx_private = private(50);
    let view_private = private(51);
    let tx_public = RistrettoPublic::from_private(&tx_private);
    let view_public = RistrettoPublic::from_private(&view_private);

    let secret = create_shared_secret(&view_public, &tx_private);
    let number = TxOutConfirmationNumber::from(&secret);
    assert!(number.validate(&tx_public, &view_private));

    // Derived from the recipient's side, it is the same number.
    let same = TxOutConfirmationNumber::from(&create_shared_secret(&tx_public, &view_private));
    assert_eq!(number, same);

    // Under another view key, or for another output, it does not validate.
    assert!(!number.validate(&tx_public, &private(52)));
    assert!(!number.validate(&RistrettoPublic::from_private(&private(53)), &view_private));
    assert!(!TxOutConfirmationNumber::from([0u8; 32]).validate(&tx_public, &view_private));
}

#[test]
fn test_tx_hash_bytes() {
    let bytes: [u8; 32] = core::array::from_fn(|i| i as u8);
    let hash = TxHash::from(bytes);
    assert_eq!(hash, TxHash::from(&bytes));
    assert_eq!(hash.to_vec(), bytes.to_vec());
    assert_eq!(hash.as_bytes(), &bytes);
    assert_eq!(hash.0, bytes);
    assert_eq!(TxHash::try_from(&bytes[..]), Ok(hash));
    assert_eq!(TxHash::try_from(&bytes[..31]), Err(()));
    assert_eq!(TxHash::try_from(&[0u8; 33][..]), Err(()));
    assert_eq!(TxHash::try_from(&[][..]), Err(()));
    assert_eq!(TxHash::default().0, [0u8; 32]);
}

#[test]
fn test_tx_hash_to_string() {
    let mut bytes = [0xeeu8; 32];
    bytes[..6].copy_from_slice(&[0x0a, 0x1b, 0x2c, 0x3d, 0x4e, 0x5f]);
    assert_eq!(TxHash::from(bytes).to_string(), "0a1b2c3d4e5f");
    assert_eq!(TxHash::from([0u8; 32]).to_string(), "000000000000");
    assert_eq!(TxHash::from([0xff; 32]).to_string(), "ffffffffffff");
}

#[test]
fn test_membership_hash() {
    let bytes = [3u8; 32];
    let hash = TxOutMembershipHash::from(bytes);
    assert_eq!(hash, TxOutMembershipHash::from(&bytes));
    assert_eq!(hash, TxOutMembershipHash::from_bytes(&bytes));
    assert_eq!(hash.to_vec(), bytes.to_vec());
    assert_eq!(hash.to_bytes(), bytes);
    assert_eq!(hash.as_ref(), &bytes);
}

#[test]
fn test_range() {
    assert_eq!(Range::new(3, 5), Ok(Range { from: 3, to: 5 }));
    assert_eq!(Range::new(5, 5), Ok(Range { from: 5, to: 5 }));
    assert_eq!(Range::new(6, 5), Err(RangeError { from: 6, to: 5 }));
    let range = Range::new(3, 5).unwrap();
    assert!(range.contains(3) && range.contains(4) && range.contains(5));
    assert!(!range.contains(2) && !range.contains(6));
    assert!(range.check_well_formed());
    assert!(!Range { from: 6, to: 5 }.check_well_formed());
    assert!(range.is_narrower_than(&Range { from: 0, to: 3 }));
    assert!(!range.is_narrower_than(&Range { from: 10, to: 12 }));
}

#[test]
fn test_membership_element_and_proof_new() {
    let e = element(4, 7, 9);
    assert_eq!(e.range, Range { from: 4, to: 7 });
    assert_eq!(e.hash, TxOutMembershipHash([9; 32]));
    assert!(element(0, 1, 0) < element(0, 2, 0));
    assert!(element(0, 2, 9) < element(1, 1, 0));

    let proof = TxOutMembershipProof::new(2, 7, vec![e.clone()]);
    assert_eq!(proof.index, 2);
    assert_eq!(proof.highest_index, 7);
    assert_eq!(proof.elements, vec![e]);
}

#[test]
fn test_membership_proof_well_formed() {
    assert!(proof_of(2, 7).check_well_formed());
    assert!(proof_of(7, 7).check_well_formed());
    assert!(TxOutMembershipProof::new(0, 0, vec![]).check_well_formed());
    // The index lies beyond the tree.
    assert!(!proof_of(8, 7).check_well_formed());
    // A range that holds no leaf.
    let empty_range = TxOutMembershipElement {
        range: Range { from: 3, to: 2 },
        hash: TxOutMembershipHash([0; 32]),
    };
    assert!(!TxOutMembershipProof::new(2, 7, vec![empty_range]).check_well_formed());
    // Ranges that do not widen.
    assert!(!TxOutMembershipProof::new(2, 7, vec![element(0, 3, 1), element(2, 3, 2)])
        .check_well_formed());
    assert!(!TxOutMembershipProof::new(2, 7, vec![element(0, 3, 1), element(4, 7, 2)])
        .check_well_formed());
}

#[test]
fn test_highest_indices() {
    let prefix = TxPrefix::new(
        vec![
            TxIn { ring: vec![], proofs: vec![proof_of(1, 10), proof_of(2, 20)] },
            TxIn { ring: vec![], proofs: vec![] },
            TxIn { ring: vec![], proofs: vec![proof_of(3, 30)] },
            TxIn { ring: vec![], proofs: vec![proof_of(4, 5), proof_of(4, 4), proof_of(4, 6)] },
        ],
        vec![],
        0,
        0,
    );
    assert_eq!(prefix.get_membership_proof_highest_indices(), vec![10, 20, 30, 5, 4, 6]);
    let tx = Tx { prefix, signature: signature() };
    assert_eq!(tx.get_membership_proof_highest_indices(), vec![10, 20, 30, 5, 4, 6]);
    assert_eq!(
        TxPrefix::new(vec![], vec![], 0, 0).get_membership_proof_highest_indices(),
        Vec::<u64>::new()
    );
}

#[test]
fn test_prefix_new_and_outputs() {
    let p = prefix(23);
    assert_eq!(p.inputs.len(), 1);
    assert_eq!(p.outputs, vec![tx_out(7, 3), tx_out(8, 4)]);
    assert_eq!(p.fee, MINIMUM_FEE);
    assert_eq!(p.tombstone_block, 23);
    assert_eq!(
        p.output_commitments(),
        vec![tx_out(7, 3).amount.commitment, tx_out(8, 4).amount.commitment]
    );
    assert_ne!(p.output_commitments()[0], Commitment::default());
    let tx = Tx { prefix: p, signature: signature() };
    assert_eq!(tx.output_public_keys(), vec![tx_out(7, 3).public_key, tx_out(8, 4).public_key]);
    assert_eq!(tx.key_images(), vec![KeyImage { bytes: point(20).to_bytes() }]);
    assert_eq!(signature().key_images(), tx.key_images());
}

#[test]
fn test_range_order() {
    let ranges = [
        Range { from: 0, to: 0 },
        Range { from: 0, to: 1 },
        Range { from: 0, to: u64::MAX },
        Range { from: 1, to: 0 },
        Range { from: 1, to: 1 },
        Range { from: 5, to: 3 },
        Range { from: u64::MAX, to: u64::MAX },
    ];
    for (i, a) in ranges.iter().enumerate() {
        for (j, b) in ranges.iter().enumerate() {
            assert_eq!(a.partial_cmp(b), Some(i.cmp(&j)));
            assert_eq!(a.partial_cmp(b), Some(a.cmp(b)));
            assert_eq!(a < b, i < j);
        }
    }
}

#[test]
fn test_hash_and_element_order() {
    let mut low = [7u8; 32];
    low[31] = 6;
    let mut high = [7u8; 32];
    high[0] = 8;
    let hashes = [[0u8; 32], low, [7u8; 32], high, [0xff; 32]];
    for (i, a) in hashes.iter().enumerate() {
        for (j, b) in hashes.iter().enumerate() {
            let (x, y) = (TxOutMembershipHash(*a), TxOutMembershipHash(*b));
            assert_eq!(x.partial_cmp(&y), Some(i.cmp(&j)));
            assert_eq!(x.partial_cmp(&y), Some(x.cmp(&y)));
            assert_eq!(x.partial_cmp(&y), Some(a.cmp(b)));
        }
    }
    let elements = [
        element(0, 1, 0),
        element(0, 1, 9),
        element(0, 2, 0),
        element(1, 1, 0),
        element(1, 1, 1),
    ];
    for (i, a) in elements.iter().enumerate() {
        for (j, b) in elements.iter().enumerate() {
            assert_eq!(a.partial_cmp(b), Some(i.cmp(&j)));
            assert_eq!(a.partial_cmp(b), Some(a.cmp(b)));
        }
    }
    assert_eq!(element(3, 4, 5).partial_cmp(&element(3, 4, 5)), Some(Ordering::Equal));
}

#[test]
fn test_find_first_difference() {
    let a = [1u8; 32];
    let mut b = a;
    assert_eq!(find_first_difference(&a, &b), 32);
    b[31] = 0;
    assert_eq!(find_first_difference(&a, &b), 31);
    b[4] = 0;
    assert_eq!(find_first_difference(&a, &b), 4);
    b[0] = 2;
    assert_eq!(find_first_difference(&a, &b), 0);
}
