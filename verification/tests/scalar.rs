use blake2::Digest;
use curve25519_dalek::constants::{RISTRETTO_BASEPOINT_COMPRESSED, RISTRETTO_BASEPOINT_POINT};
use curve25519_dalek::ristretto::RistrettoPoint;
use curve25519_dalek::scalar::Scalar as DalekScalar;
use transaction_core::account_keys::PublicAddress;
use transaction_core::encoding::{bytes32_equal, join_bytes, low_u64};
use transaction_core::onetime_keys::{
    create_onetime_public_key, create_shared_secret, create_tx_public_key,
    get_tx_out_shared_secret, hash_to_scalar,
};
use transaction_core::ristretto::{CompressedRistrettoPublic, RistrettoPrivate, RistrettoPublic};
use transaction_core::scalar::Scalar;

const GROUP_ORDER: [u8; 32] = [
    237, 211, 245, 92, 26, 99, 18, 88, 214, 156, 247, 162, 222, 249, 222, 20, 0, 0, 0, 0, 0, 0,
    0, 0, 0, 0, 0, 0, 0, 0, 0, 16,
];

fn wide(seed: u8) -> [u8; 64] {
    let mut bytes = [0u8; 64];
    for (i, byte) in bytes.iter_mut().enumerate() {
        *byte = seed.wrapping_mul(29).wrapping_add((i as u8).wrapping_mul(7));
    }
    bytes
}

fn dalek_scalar(seed: u8) -> DalekScalar {
    DalekScalar::from_bytes_mod_order_wide(&wide(seed))
}

fn scalar(seed: u8) -> Scalar {
    Scalar::from_canonical_bytes(dalek_scalar(seed).to_bytes()).unwrap()
}

fn dalek_point(seed: u8) -> RistrettoPoint {
    dalek_scalar(seed) * RISTRETTO_BASEPOINT_POINT
}

fn point(seed: u8) -> RistrettoPublic {
    RistrettoPublic::try_from_bytes(&dalek_point(seed).compress().to_bytes()).unwrap()
}

fn private(seed: u8) -> RistrettoPrivate {
    RistrettoPrivate::from_scalar(scalar(seed))
}

#[test]
fn test_scalar_from_u64() {
    for x in [0u64, 1, 255, 256, 1 << 32, u64::MAX] {
        let s = Scalar::from_u64(x);
        let mut expected = [0u8; 32];
        expected[..8].copy_from_slice(&x.to_le_bytes());
        assert_eq!(s.to_bytes(), expected);
    }
}

#[test]
fn test_scalar_add_and_sub() {
    for seed in 0..20u8 {
        let a = dalek_scalar(seed);
        let b = dalek_scalar(seed + 100);
        assert_eq!(scalar(seed).add(&scalar(seed + 100)).to_bytes(), (a + b).to_bytes());
        assert_eq!(scalar(seed).sub(&scalar(seed + 100)).to_bytes(), (a - b).to_bytes());
        assert_eq!(scalar(seed).add(&scalar(seed + 100)).sub(&scalar(seed + 100)), scalar(seed));
    }
}

#[test]
fn test_scalar_add_wraps_at_the_group_order() {
    // l - 1 plus 2 is 1.
    let mut bytes = GROUP_ORDER;
    bytes[0] -= 1;
    let largest = Scalar::from_canonical_bytes(bytes).unwrap();
    assert_eq!(largest.add(&Scalar::from_u64(2)), Scalar::from_u64(1));
    // 0 minus 1 is l - 1.
    assert_eq!(Scalar::from_u64(0).sub(&Scalar::from_u64(1)), largest);
}

#[test]
fn test_scalar_from_canonical_bytes() {
    assert!(Scalar::from_canonical_bytes(GROUP_ORDER).is_none());
    let mut below = GROUP_ORDER;
    below[0] -= 1;
    assert_eq!(Scalar::from_canonical_bytes(below).unwrap().to_bytes(), below);
    assert!(Scalar::from_canonical_bytes([0xff; 32]).is_none());
    assert_eq!(Scalar::from_canonical_bytes([0; 32]).unwrap(), Scalar::from_u64(0));
}

#[test]
fn test_scalar_from_bytes_mod_order() {
    assert_eq!(Scalar::from_bytes_mod_order(GROUP_ORDER), Scalar::from_u64(0));
    let mut above = GROUP_ORDER;
    above[0] += 5;
    assert_eq!(Scalar::from_bytes_mod_order(above), Scalar::from_u64(5));
    for seed in 0..10u8 {
        assert_eq!(
            Scalar::from_bytes_mod_order_wide(&wide(seed)).to_bytes(),
            dalek_scalar(seed).to_bytes()
        );
    }
    // 2^256 mod l, from its 64-byte encoding.
    let mut two_to_256 = [0u8; 64];
    two_to_256[32] = 1;
    let expected = DalekScalar::from_bytes_mod_order([0xff; 32]) + DalekScalar::ONE;
    assert_eq!(Scalar::from_bytes_mod_order_wide(&two_to_256).to_bytes(), expected.to_bytes());
}

#[test]
fn test_scalar_equals() {
    assert!(scalar(1).equals(&scalar(1)));
    assert!(!scalar(1).equals(&scalar(2)));
}

#[test]
fn test_low_u64() {
    let mut bytes = [0u8; 32];
    bytes[..8].copy_from_slice(&0x0102_0304_0506_0708u64.to_le_bytes());
    bytes[8] = 0xff;
    bytes[31] = 0x7f;
    assert_eq!(low_u64(&bytes), 0x0102_0304_0506_0708);
    assert_eq!(low_u64(&[0xff; 32]), u64::MAX);
    assert_eq!(low_u64(&[0; 32]), 0);
}

#[test]
fn test_join_bytes() {
    assert_eq!(join_bytes(&[1, 2], &[3]), vec![1, 2, 3]);
    assert_eq!(join_bytes(&[], &[3, 4]), vec![3, 4]);
    assert_eq!(join_bytes(&[5], &[]), vec![5]);
    assert_eq!(join_bytes(&[], &[]), Vec::<u8>::new());
}

#[test]
fn test_bytes32_equal() {
    let a = [7u8; 32];
    let mut b = a;
    assert!(bytes32_equal(&a, &b));
    b[31] = 8;
    assert!(!bytes32_equal(&a, &b));
    b = a;
    b[0] = 0;
    assert!(!bytes32_equal(&a, &b));
}

#[test]
fn test_basepoint_encoding() {
    assert_eq!(
        RistrettoPublic::basepoint().to_bytes(),
        [
            0xe2, 0xf2, 0xae, 0x0a, 0x6a, 0xbc, 0x4e, 0x71, 0xa8, 0x84, 0xa9, 0x61, 0xc5, 0x00,
            0x51, 0x5f, 0x58, 0xe3, 0x0b, 0x6a, 0xa5, 0x82, 0xdd, 0x8d, 0xb6, 0xa6, 0x59, 0x45,
            0xe0, 0x8d, 0x2d, 0x76,
        ]
    );
    assert_eq!(
        RistrettoPublic::basepoint().to_bytes(),
        RISTRETTO_BASEPOINT_POINT.compress().to_bytes()
    );
}

#[test]
fn test_point_from_bytes() {
    let bytes = RISTRETTO_BASEPOINT_COMPRESSED.to_bytes();
    let g = RistrettoPublic::try_from_bytes(&bytes).unwrap();
    assert_eq!(g.to_bytes(), bytes);
    assert_eq!(RistrettoPublic::basepoint(), g);
    // Not the encoding of a group element.
    assert!(RistrettoPublic::try_from_bytes(&[0xff; 32]).is_none());
    assert!(RistrettoPublic::try_from_bytes(&[1; 32]).is_none());
    // The identity is one.
    assert!(RistrettoPublic::try_from_bytes(&[0; 32]).is_some());
}

#[test]
fn test_compressed_point() {
    let p = point(3);
    let compressed = CompressedRistrettoPublic::from_public(&p);
    assert_eq!(compressed.to_bytes(), p.to_bytes());
    assert_eq!(compressed.decompress(), Some(p));
    assert_eq!(CompressedRistrettoPublic { bytes: [0xff; 32] }.decompress(), None);
}

#[test]
fn test_point_mul_and_add() {
    for seed in 0..10u8 {
        let k = dalek_scalar(seed);
        let p = dalek_point(seed + 50);
        let q = dalek_point(seed + 90);
        assert_eq!(point(seed + 50).mul(&scalar(seed)).to_bytes(), (k * p).compress().to_bytes());
        assert_eq!(
            point(seed + 50).add(&point(seed + 90)).to_bytes(),
            (p + q).compress().to_bytes()
        );
        assert!(point(seed + 50).equals(&point(seed + 50)));
        assert!(!point(seed + 50).equals(&point(seed + 90)));
    }
}

#[test]
fn test_point_from_uniform_bytes() {
    for seed in 0..5u8 {
        assert_eq!(
            RistrettoPublic::from_uniform_bytes(&wide(seed)).to_bytes(),
            RistrettoPoint::from_uniform_bytes(&wide(seed)).compress().to_bytes()
        );
    }
}

#[test]
fn test_public_from_private() {
    for seed in 0..5u8 {
        assert_eq!(
            RistrettoPublic::from_private(&private(seed)).to_bytes(),
            dalek_point(seed).compress().to_bytes()
        );
        assert_eq!(private(seed).as_scalar(), &scalar(seed));
    }
}

#[test]
fn test_hash_to_scalar() {
    let p = point(4);
    let mut hasher = blake2::Blake2b512::new();
    hasher.update(b"mc_ristretto_hash_to_scalar");
    hasher.update(p.to_bytes());
    let digest: [u8; 64] = hasher.finalize().into();
    assert_eq!(
        hash_to_scalar(&p).to_bytes(),
        DalekScalar::from_bytes_mod_order_wide(&digest).to_bytes()
    );
}

#[test]
fn test_onetime_keys() {
    let r = dalek_scalar(1);
    let view = dalek_point(2);
    let spend = dalek_point(3);
    let recipient = PublicAddress::new(&point(3), &point(2));
    assert_eq!(recipient.view_public_key(), &point(2));
    assert_eq!(recipient.spend_public_key(), &point(3));

    // Hs(r * C) * G + D
    let mut hasher = blake2::Blake2b512::new();
    hasher.update(b"mc_ristretto_hash_to_scalar");
    hasher.update((r * view).compress().as_bytes());
    let digest: [u8; 64] = hasher.finalize().into();
    let hs = DalekScalar::from_bytes_mod_order_wide(&digest);
    let expected = hs * RISTRETTO_BASEPOINT_POINT + spend;
    assert_eq!(
        create_onetime_public_key(&private(1), &recipient).to_bytes(),
        expected.compress().to_bytes()
    );

    // r * D
    assert_eq!(
        create_tx_public_key(&private(1), &point(3)).to_bytes(),
        (r * spend).compress().to_bytes()
    );

    // r * C
    assert_eq!(
        create_shared_secret(&point(2), &private(1)).to_bytes(),
        (r * view).compress().to_bytes()
    );
}

#[test]
fn test_shared_secret_is_the_same_on_both_sides() {
    // The sender has the output's private key r and the recipient's view
    // key a*G; the recipient has a and the key r*G.
    let sender = create_shared_secret(&RistrettoPublic::from_private(&private(8)), &private(9));
    let recipient =
        get_tx_out_shared_secret(&private(8), &RistrettoPublic::from_private(&private(9)));
    assert_eq!(sender, recipient);
}
