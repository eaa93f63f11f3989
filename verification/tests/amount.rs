use blake2::Digest;
use curve25519_dalek::constants::{RISTRETTO_BASEPOINT_COMPRESSED, RISTRETTO_BASEPOINT_POINT};
use curve25519_dalek::ristretto::RistrettoPoint;
use curve25519_dalek::scalar::Scalar as DalekScalar;
use transaction_core::amount::{get_blinding_mask, get_value_mask, Amount, AmountError};
use transaction_core::constants::MAX_TINY_MOB;
use transaction_core::ring_signature::{
    blinding_generator, value_generator, Blinding, Commitment, CurveScalar,
};
use transaction_core::ristretto::RistrettoPublic;
use transaction_core::scalar::Scalar;

fn dalek_scalar(seed: u8) -> DalekScalar {
    let mut wide = [0u8; 64];
    for (i, byte) in wide.iter_mut().enumerate() {
        *byte = seed.wrapping_mul(31).wrapping_add(i as u8);
    }
    DalekScalar::from_bytes_mod_order_wide(&wide)
}

fn scalar(seed: u8) -> Scalar {
    Scalar::from_canonical_bytes(dalek_scalar(seed).to_bytes()).unwrap()
}

fn blinding(seed: u8) -> Blinding {
    Blinding::from(scalar(seed))
}

fn point(seed: u8) -> RistrettoPublic {
    let p = dalek_scalar(seed) * RISTRETTO_BASEPOINT_POINT;
    RistrettoPublic::try_from_bytes(&p.compress().to_bytes()).unwrap()
}

fn dalek_h() -> RistrettoPoint {
    let mut hasher = blake2::Blake2b512::new();
    hasher.update(b"mc_ristretto_hash_to_point");
    hasher.update(RISTRETTO_BASEPOINT_COMPRESSED.as_bytes());
    let digest: [u8; 64] = hasher.finalize().into();
    RistrettoPoint::from_uniform_bytes(&digest)
}

fn values() -> Vec<u64> {
    vec![0, 1, 23, 255, 256, 65_536, 1 << 40, MAX_TINY_MOB - 1, MAX_TINY_MOB]
}

#[test]
fn test_generators() {
    assert_eq!(value_generator().to_bytes(), RISTRETTO_BASEPOINT_COMPRESSED.to_bytes());
    assert_eq!(blinding_generator().to_bytes(), dalek_h().compress().to_bytes());
    assert_ne!(value_generator().to_bytes(), blinding_generator().to_bytes());
}

#[test]
fn test_new_ok() {
    for (i, value) in values().into_iter().enumerate() {
        assert!(Amount::new(value, blinding(i as u8), &point(7)).is_ok());
    }
}

#[test]
fn test_new_exceeds_limit_error() {
    for value in [MAX_TINY_MOB + 1, MAX_TINY_MOB + 2, 1 << 62, u64::MAX] {
        assert_eq!(
            Amount::new(value, blinding(3), &point(5)),
            Err(AmountError::ExceedsLimit(value))
        );
    }
}

#[test]
fn test_max_tiny_mob_plus_one_is_refused() {
    assert_eq!(
        Amount::new(MAX_TINY_MOB + 1, blinding(1), &point(2)),
        Err(AmountError::ExceedsLimit(MAX_TINY_MOB + 1))
    );
    assert_eq!(MAX_TINY_MOB + 1, 250_000_000_000_000_001);
}

#[test]
fn test_commitment() {
    for (i, value) in values().into_iter().enumerate() {
        let b = dalek_scalar(40 + i as u8);
        let amount = Amount::new(value, blinding(40 + i as u8), &point(9)).unwrap();
        let expected = DalekScalar::from(value) * RISTRETTO_BASEPOINT_POINT + b * dalek_h();
        assert_eq!(amount.commitment.bytes, expected.compress().to_bytes());
    }
}

#[test]
fn test_commitment_of_23_with_blinding_1() {
    let one = Blinding::from(Scalar::from_u64(1));
    let secret = point(11);
    let amount = Amount::new(23, one, &secret).unwrap();
    let expected = DalekScalar::from(23u64) * RISTRETTO_BASEPOINT_POINT + DalekScalar::ONE * dalek_h();
    assert_eq!(amount.commitment.bytes, expected.compress().to_bytes());
    assert_eq!(amount.get_value(&secret), Ok((23, one)));
}

#[test]
fn test_masks() {
    let secret = point(13);
    let first: [u8; 64] = blake2::Blake2b512::digest(secret.to_bytes()).into();
    let mask_v = DalekScalar::from_bytes_mod_order_wide(&first);
    let second: [u8; 64] = blake2::Blake2b512::digest(mask_v.to_bytes()).into();
    let mask_b = DalekScalar::from_bytes_mod_order_wide(&second);
    assert_eq!(get_value_mask(&secret).to_bytes(), mask_v.to_bytes());
    assert_eq!(get_blinding_mask(&secret).to_bytes(), mask_b.to_bytes());

    let b = dalek_scalar(77);
    let amount = Amount::new(1000, blinding(77), &secret).unwrap();
    assert_eq!(
        amount.masked_value.scalar.to_bytes(),
        (DalekScalar::from(1000u64) + mask_v).to_bytes()
    );
    assert_eq!(amount.masked_blinding.scalar.to_bytes(), (b + mask_b).to_bytes());
}

#[test]
fn test_unmask_value() {
    for (i, value) in values().into_iter().enumerate() {
        let secret = point(20 + i as u8);
        let amount = Amount::new(value, blinding(i as u8), &secret).unwrap();
        assert_eq!(value, amount.unmask_value(&secret));
    }
}

#[test]
fn test_unmask_blinding() {
    for (i, value) in values().into_iter().enumerate() {
        let secret = point(20 + i as u8);
        let amount = Amount::new(value, blinding(i as u8), &secret).unwrap();
        assert_eq!(amount.unmask_blinding(&secret), blinding(i as u8));
    }
}

#[test]
fn test_get_value_ok() {
    for (i, value) in values().into_iter().enumerate() {
        let secret = point(60 + i as u8);
        let amount = Amount::new(value, blinding(i as u8), &secret).unwrap();
        assert_eq!(amount.get_value(&secret), Ok((value, blinding(i as u8))));
    }
}

#[test]
fn test_get_value_incorrect_masked_value() {
    for (i, value) in values().into_iter().enumerate() {
        let secret = point(60 + i as u8);
        let mut amount = Amount::new(value, blinding(i as u8), &secret).unwrap();
        amount.masked_value = CurveScalar::from(scalar(200 + i as u8));
        assert_eq!(amount.get_value(&secret), Err(AmountError::InconsistentCommitment));
    }
}

#[test]
fn test_get_value_incorrect_blinding() {
    for (i, value) in values().into_iter().enumerate() {
        let secret = point(60 + i as u8);
        let mut amount = Amount::new(value, blinding(i as u8), &secret).unwrap();
        amount.masked_blinding = blinding(200 + i as u8);
        assert_eq!(amount.get_value(&secret), Err(AmountError::InconsistentCommitment));
    }
}

#[test]
fn test_get_value_incorrect_commitment() {
    let secret = point(61);
    let mut amount = Amount::new(5, blinding(1), &secret).unwrap();
    amount.commitment = Commitment::new(&Scalar::from_u64(6), &scalar(1));
    assert_eq!(amount.get_value(&secret), Err(AmountError::InconsistentCommitment));
}

#[test]
fn test_get_value_invalid_shared_secret() {
    for (i, value) in values().into_iter().enumerate() {
        let amount = Amount::new(value, blinding(i as u8), &point(60 + i as u8)).unwrap();
        assert_eq!(
            amount.get_value(&point(100 + i as u8)),
            Err(AmountError::InconsistentCommitment)
        );
    }
}

#[test]
fn test_get_value_wide_masked_value() {
    // A masked value whose unmasked scalar does not fit in 64 bits still
    // gives a `u64`: its low 64 bits. Here these are the committed value,
    // so the commitment agrees.
    let secret = point(62);
    let mut amount = Amount::new(5, blinding(1), &secret).unwrap();
    let wide = Scalar::from_u64(5).add(&Scalar::from_bytes_mod_order({
        let mut bytes = [0u8; 32];
        bytes[8] = 1;
        bytes
    }));
    amount.masked_value = CurveScalar::from(wide.add(&get_value_mask(&secret)));
    assert_eq!(amount.unmask_value(&secret), 5);
    assert_eq!(amount.get_value(&secret), Ok((5, blinding(1))));
}

#[test]
fn test_error_messages() {
    assert_eq!(AmountError::InconsistentCommitment.message(), "Inconsistent Commitment");
    assert_eq!(AmountError::ExceedsLimit(7).message(), "Amount exceeds MAX_TINY_MOB");
}
