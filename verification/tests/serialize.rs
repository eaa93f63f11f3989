use curve25519_dalek::constants::RISTRETTO_BASEPOINT_POINT;
use curve25519_dalek::scalar::Scalar as DalekScalar;
use rand::rngs::StdRng;
use rand::{RngCore, SeedableRng};
use transaction_core::amount::Amount;
use transaction_core::codec::{DecodeError, Message};
use transaction_core::constants::{ENCRYPTED_FOG_HINT_LEN, MINIMUM_FEE};
use transaction_core::encrypted_fog_hint::EncryptedFogHint;
use transaction_core::membership_proofs::Range;
use transaction_core::memo::MemoPayload;
use transaction_core::ring_signature::{KeyImage, RingSignature};
use transaction_core::ristretto::{CompressedRistrettoPublic, RistrettoPublic};
use transaction_core::tx::{
    get_amount_blinding, Tx, TxIn, TxOut, TxOutMembershipElement, TxOutMembershipProof, TxPrefix,
};
use transaction_core::wire::{
    decode_fields, decode_varint, encode_fields, encode_varint, WireField,
};

fn random_public(rng: &mut StdRng) -> RistrettoPublic {
    let mut bytes = [0u8; 64];
    rng.fill_bytes(&mut bytes);
    let point = DalekScalar::from_bytes_mod_order_wide(&bytes) * RISTRETTO_BASEPOINT_POINT;
    RistrettoPublic::try_from_bytes(&point.compress().to_bytes()).unwrap()
}

fn random_tx_out(rng: &mut StdRng, with_memo: bool) -> TxOut {
    let shared_secret = random_public(rng);
    let target_key = CompressedRistrettoPublic::from_public(&random_public(rng));
    let public_key = CompressedRistrettoPublic::from_public(&random_public(rng));
    let amount = Amount::new(23u64, get_amount_blinding(&shared_secret), &shared_secret).unwrap();
    TxOut {
        amount,
        target_key,
        public_key,
        e_fog_hint: EncryptedFogHint::from(&[1u8; ENCRYPTED_FOG_HINT_LEN]),
        e_memo: if with_memo {
            MemoPayload::default().encrypt(&shared_secret).to_vec()
        } else {
            Default::default()
        },
    }
}

fn element(from: u64, to: u64, byte: u8) -> TxOutMembershipElement {
    TxOutMembershipElement::new(Range::new(from, to).unwrap(), [byte; 32])
}

#[test]
// `serialize_tx` should create a Tx, encode/decode it, and compare
fn test_serialize_tx_no_memo() {
    let mut rng: StdRng = SeedableRng::from_seed([1u8; 32]);
    let tx_out = random_tx_out(&mut rng, false);

    // TxOut = decode(encode(TxOut))
    let buf = tx_out.encode();
    assert_eq!(tx_out, TxOut::decode(&buf[..]).unwrap());

    let tx_in = TxIn { ring: vec![tx_out.clone()], proofs: vec![] };

    // TxIn = decode(encode(TxIn))
    let buf = tx_in.encode();
    assert_eq!(tx_in, TxIn::decode(&buf[..]).unwrap());

    let prefix = TxPrefix {
        inputs: vec![tx_in],
        outputs: vec![tx_out],
        fee: MINIMUM_FEE,
        tombstone_block: 23,
    };

    let buf = prefix.encode();
    assert_eq!(prefix, TxPrefix::decode(&buf[..]).unwrap());

    let signature = RingSignature::default();

    let tx = Tx { prefix, signature };

    let buf = tx.encode();
    let recovered_tx: Tx = Tx::decode(&buf[..]).unwrap();
    assert_eq!(tx, recovered_tx);
}

#[test]
// `serialize_tx` should create a Tx, encode/decode it, and compare
fn test_serialize_tx_with_memo() {
    let mut rng: StdRng = SeedableRng::from_seed([1u8; 32]);
    let tx_out = random_tx_out(&mut rng, true);

    // TxOut = decode(encode(TxOut))
    let buf = tx_out.encode();
    assert_eq!(tx_out, TxOut::decode(&buf[..]).unwrap());

    let tx_in = TxIn { ring: vec![tx_out.clone()], proofs: vec![] };

    // TxIn = decode(encode(TxIn))
    let buf = tx_in.encode();
    assert_eq!(tx_in, TxIn::decode(&buf[..]).unwrap());

    let prefix = TxPrefix {
        inputs: vec![tx_in],
        outputs: vec![tx_out],
        fee: MINIMUM_FEE,
        tombstone_block: 23,
    };

    let buf = prefix.encode();
    assert_eq!(prefix, TxPrefix::decode(&buf[..]).unwrap());

    let signature = RingSignature::default();

    let tx = Tx { prefix, signature };

    let buf = tx.encode();
    let recovered_tx: Tx = Tx::decode(&buf[..]).unwrap();
    assert_eq!(tx, recovered_tx);
}

#[test]
fn test_prefix_reencodes_byte_for_byte() {
    let mut rng: StdRng = SeedableRng::from_seed([2u8; 32]);
    let out = random_tx_out(&mut rng, true);
    let prefix = TxPrefix {
        inputs: vec![TxIn { ring: vec![out.clone()], proofs: vec![] }],
        outputs: vec![out],
        fee: MINIMUM_FEE,
        tombstone_block: 23,
    };
    let encoded = prefix.encode();
    let decoded = TxPrefix::decode(&encoded).unwrap();
    assert_eq!(decoded, prefix);
    assert_eq!(decoded.encode(), encoded);
}

#[test]
fn test_full_tx_round_trip() {
    let mut rng: StdRng = SeedableRng::from_seed([3u8; 32]);
    let proofs = vec![
        TxOutMembershipProof::new(2, 7, vec![element(2, 3, 1), element(0, 3, 2), element(0, 7, 3)]),
        TxOutMembershipProof::new(0, 0, vec![]),
        TxOutMembershipProof::new(0, 9, vec![element(0, 0, 0)]),
    ];
    let inputs = vec![
        TxIn {
            ring: vec![random_tx_out(&mut rng, true), random_tx_out(&mut rng, false)],
            proofs: proofs.clone(),
        },
        TxIn { ring: vec![], proofs: vec![] },
        TxIn { ring: vec![], proofs: proofs.clone() },
    ];
    let signature = RingSignature {
        key_images: vec![
            KeyImage { bytes: random_public(&mut rng).to_bytes() },
            KeyImage { bytes: [0u8; 32] },
        ],
        signature_bytes: (0..=255u8).cycle().take(1000).collect(),
    };
    for (fee, tombstone_block) in [(0, 0), (1, 0), (0, 1), (u64::MAX, u64::MAX), (127, 128)] {
        let tx = Tx {
            prefix: TxPrefix {
                inputs: inputs.clone(),
                outputs: vec![random_tx_out(&mut rng, true)],
                fee,
                tombstone_block,
            },
            signature: signature.clone(),
        };
        let encoded = tx.encode();
        assert_eq!(Tx::decode(&encoded), Ok(tx.clone()));
        assert_eq!(TxPrefix::decode(&tx.prefix.encode()), Ok(tx.prefix.clone()));
        assert_eq!(RingSignature::decode(&tx.signature.encode()), Ok(tx.signature.clone()));
    }
    for proof in proofs {
        assert_eq!(TxOutMembershipProof::decode(&proof.encode()), Ok(proof.clone()));
        for e in proof.elements {
            assert_eq!(TxOutMembershipElement::decode(&e.encode()), Ok(e));
        }
    }
    let empty = Tx {
        prefix: TxPrefix::new(vec![], vec![], 0, 0),
        signature: RingSignature::default(),
    };
    assert_eq!(empty.encode(), vec![0x0a, 0, 0x12, 0]);
    assert_eq!(Tx::decode(&[0x0a, 0, 0x12, 0]), Ok(empty));
}

#[test]
fn test_amount_round_trip_and_layout() {
    let mut rng: StdRng = SeedableRng::from_seed([4u8; 32]);
    let secret = random_public(&mut rng);
    let amount = Amount::new(5, get_amount_blinding(&secret), &secret).unwrap();
    let encoded = amount.encode();
    assert_eq!(Amount::decode(&encoded), Ok(amount));

    // 1 = commitment, 2 = masked_value, 3 = masked_blinding, each as its
    // raw 32 bytes.
    let mut expected = Vec::new();
    prost::encoding::bytes::encode(1, &amount.commitment.bytes.to_vec(), &mut expected);
    prost::encoding::bytes::encode(2, &amount.masked_value.scalar.to_bytes().to_vec(), &mut expected);
    prost::encoding::bytes::encode(3, &amount.masked_blinding.scalar.to_bytes().to_vec(), &mut expected);
    assert_eq!(encoded, expected);
    assert_eq!(encoded.len(), 102);
    assert_eq!(&encoded[..2], &[0x0a, 32]);
    assert_eq!(&encoded[34..36], &[0x12, 32]);
    assert_eq!(&encoded[68..70], &[0x1a, 32]);
}

#[test]
fn test_amount_decode_refuses_scalar_that_is_not_canonical() {
    let mut rng: StdRng = SeedableRng::from_seed([4u8; 32]);
    let secret = random_public(&mut rng);
    let amount = Amount::new(5, get_amount_blinding(&secret), &secret).unwrap();
    let mut encoded = amount.encode();
    assert!(Amount::decode(&encoded).is_ok());
    for byte in &mut encoded[36..68] {
        *byte = 0xff;
    }
    assert_eq!(Amount::decode(&encoded), Err(DecodeError));
}

#[test]
fn test_tx_out_layout() {
    let mut rng: StdRng = SeedableRng::from_seed([5u8; 32]);
    let out = random_tx_out(&mut rng, true);
    let mut expected = Vec::new();
    prost::encoding::bytes::encode(1, &out.amount.encode(), &mut expected);
    prost::encoding::bytes::encode(2, &out.target_key.bytes.to_vec(), &mut expected);
    prost::encoding::bytes::encode(3, &out.public_key.bytes.to_vec(), &mut expected);
    prost::encoding::bytes::encode(4, &out.e_fog_hint.bytes.to_vec(), &mut expected);
    prost::encoding::bytes::encode(5, &out.e_memo, &mut expected);
    assert_eq!(out.encode(), expected);

    // Without a memo the field is left out.
    let bare = TxOut { e_memo: vec![], ..out };
    assert_eq!(bare.encode(), expected[..expected.len() - 36].to_vec());
}

#[test]
fn test_range_layout() {
    assert_eq!(Range { from: 1, to: 300 }.encode(), vec![0x08, 0x01, 0x10, 0xac, 0x02]);
    assert_eq!(Range { from: 0, to: 0 }.encode(), Vec::<u8>::new());
    assert_eq!(Range { from: 0, to: 5 }.encode(), vec![0x10, 0x05]);
    assert_eq!(Range { from: 5, to: 0 }.encode(), vec![0x08, 0x05]);
    for range in [
        Range { from: 0, to: 0 },
        Range { from: 0, to: 5 },
        Range { from: 5, to: 0 },
        Range { from: 1, to: 300 },
        Range { from: u64::MAX, to: u64::MAX },
    ] {
        let mut expected = Vec::new();
        prost::encoding::uint64::encode(1, &range.from, &mut expected);
        prost::encoding::uint64::encode(2, &range.to, &mut expected);
        if range.from == 0 {
            expected.drain(..2);
        }
        if range.to == 0 {
            let len = expected.len();
            expected.truncate(len - 2);
        }
        assert_eq!(range.encode(), expected);
        assert_eq!(Range::decode(&range.encode()), Ok(range));
    }
}

#[test]
fn test_decode_refuses_what_is_no_message() {
    // A field of another number, fields out of order, a field that ends
    // behind the buffer, bytes after the last field.
    assert_eq!(Range::decode(&[0x18, 0x01]), Err(DecodeError));
    assert_eq!(Range::decode(&[0x10, 0x01, 0x08, 0x01]), Err(DecodeError));
    assert_eq!(Range::decode(&[0x08]), Err(DecodeError));
    assert_eq!(Range::decode(&[0x08, 0x01, 0x08, 0x01]), Err(DecodeError));
    assert_eq!(Range::decode(&[0x0a, 0x01, 0x00]), Err(DecodeError));
    assert_eq!(Amount::decode(&[]), Err(DecodeError));
    assert_eq!(TxOut::decode(&[0x0a, 0x00]), Err(DecodeError));
    assert_eq!(Tx::decode(&[0x0a, 0x00]), Err(DecodeError));
    assert_eq!(Tx::decode(&[0x0a, 0x05, 0x00]), Err(DecodeError));
    assert_eq!(KeyImage::decode(&[0u8; 31]), Err(DecodeError));
    assert_eq!(KeyImage::decode(&[7u8; 32]), Ok(KeyImage { bytes: [7u8; 32] }));
    // An empty prefix is a message.
    assert_eq!(TxPrefix::decode(&[]), Ok(TxPrefix::new(vec![], vec![], 0, 0)));
}

#[test]
fn test_varint() {
    for value in [0u64, 1, 127, 128, 300, 16_383, 16_384, 1 << 32, u64::MAX - 1, u64::MAX] {
        let mut encoded = vec![0xee];
        encode_varint(value, &mut encoded);
        let mut expected = vec![0xee];
        prost::encoding::encode_varint(value, &mut expected);
        assert_eq!(encoded, expected);
        assert_eq!(decode_varint(&encoded, 1), Some((value, encoded.len())));
        encoded.push(0x55);
        assert_eq!(decode_varint(&encoded, 1), Some((value, encoded.len() - 1)));
    }
    let mut encoded = Vec::new();
    encode_varint(300, &mut encoded);
    assert_eq!(encoded, vec![0xac, 0x02]);
    // No end, and more than 64 bits.
    assert_eq!(decode_varint(&[0x80, 0x80], 0), None);
    assert_eq!(decode_varint(&[], 0), None);
    assert_eq!(decode_varint(&[0xff; 9], 0), None);
    assert_eq!(
        decode_varint(&[0xff, 0xff, 0xff, 0xff, 0xff, 0xff, 0xff, 0xff, 0xff, 0x02], 0),
        None
    );
    assert_eq!(
        decode_varint(&[0x80, 0x80, 0x80, 0x80, 0x80, 0x80, 0x80, 0x80, 0x80, 0x80, 0x01], 0),
        None
    );
}

#[test]
fn test_wire_fields() {
    let fields = vec![
        WireField::Varint { tag: 1, value: 150 },
        WireField::Bytes { tag: 2, data: b"testing".to_vec() },
        WireField::Bytes { tag: 15, data: vec![] },
        WireField::Varint { tag: 15, value: 0 },
    ];
    let encoded = encode_fields(&fields);
    assert_eq!(
        encoded,
        vec![
            0x08, 0x96, 0x01, 0x12, 0x07, 0x74, 0x65, 0x73, 0x74, 0x69, 0x6e, 0x67, 0x7a, 0x00,
            0x78, 0x00
        ]
    );
    assert_eq!(decode_fields(&encoded), Some(fields));
    assert_eq!(decode_fields(&[]), Some(vec![]));
    // Field number zero, a key of two bytes, the wire types that are not
    // used, a length that runs out of the buffer.
    assert_eq!(decode_fields(&[0x00, 0x00]), None);
    assert_eq!(decode_fields(&[0x80, 0x01, 0x00]), None);
    assert_eq!(decode_fields(&[0x09, 0, 0, 0, 0, 0, 0, 0, 0]), None);
    assert_eq!(decode_fields(&[0x0d, 0, 0, 0, 0]), None);
    assert_eq!(decode_fields(&[0x0a, 0x02, 0x00]), None);
}
