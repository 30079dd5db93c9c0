use vchain_plus::acc::acc_value::AccValue;
use vchain_plus::acc::curve::{G1Point, G2Point};
use vchain_plus::acc::field::Scalar;
use vchain_plus::acc::keys::{AccPublicKey, AccSecretKey, AccSecretKeyWithPowCache, SetupError};
use vchain_plus::acc::set::IdSet;
use vchain_plus::digest::{Digest, Digestible};

fn random_scalar() -> Scalar {
    loop {
        let limbs = [
            rand::random::<u64>(),
            rand::random::<u64>(),
            rand::random::<u64>(),
            rand::random::<u64>() >> 2,
        ];
        if let Some(s) = Scalar::from_limbs(limbs) {
            if !s.is_zero() {
                return s;
            }
        }
    }
}

fn random_key() -> AccSecretKeyWithPowCache {
    AccSecretKey::new(random_scalar(), random_scalar()).unwrap().into()
}

#[test]
fn test_compute_acc() {
    let q = 5;
    let sk = random_key();
    let pk = AccPublicKey::gen_key(&sk, q).unwrap();

    let s = IdSet::from_slice(&[1, 2, 3]);
    let acc1 = AccValue::from_set(&s, &pk).unwrap();
    let acc2 = AccValue::from_set_sk(&s, &sk, q).unwrap();
    assert_eq!(acc1, acc2);
}

#[test]
fn test_update_acc() {
    let q = 5;
    let sk = random_key();

    let acc1 = AccValue::from_set_sk(&IdSet::from_slice(&[1, 2, 3]), &sk, q).unwrap();
    let acc2 = AccValue::from_set_sk(&IdSet::from_slice(&[1, 2]), &sk, q).unwrap();
    let acc3 = AccValue::from_set_sk(&IdSet::from_slice(&[3]), &sk, q).unwrap();
    assert_eq!(acc1, acc2 + acc3);
    assert_eq!(acc1 - acc2, acc3);
}

#[test]
fn public_key_path_is_additive_too() {
    let q = 5;
    let sk = random_key();
    let pk = AccPublicKey::gen_key(&sk, q).unwrap();
    let all = AccValue::from_set(&IdSet::from_slice(&[1, 2, 3]), &pk).unwrap();
    let left = AccValue::from_set(&IdSet::from_slice(&[1, 2]), &pk).unwrap();
    let right = AccValue::from_set(&IdSet::from_slice(&[3]), &pk).unwrap();
    assert_eq!(all, left + right);
    assert_eq!(all - left, right);
    assert_ne!(all, left);
    assert_ne!(left, right);
}

#[test]
fn empty_set_is_the_neutral_element() {
    let q = 4;
    let sk = random_key();
    let pk = AccPublicKey::gen_key(&sk, q).unwrap();
    let empty = AccValue::from_set(&IdSet::new(), &pk).unwrap();
    assert_eq!(empty, AccValue::empty());
    assert_eq!(empty, AccValue::from_set_sk(&IdSet::new(), &sk, q).unwrap());
    let x = AccValue::from_set(&IdSet::from_slice(&[2, 4]), &pk).unwrap();
    assert_eq!(empty + x, x);
    assert_eq!(x + empty, x);
    assert_eq!(x - x, empty);
    assert_eq!(empty - empty, empty);
}

#[test]
fn elements_outside_the_bound_are_rejected() {
    let q = 3;
    let sk = random_key();
    let pk = AccPublicKey::gen_key(&sk, q).unwrap();
    let too_large = IdSet::from_slice(&[1, 4]);
    let zero = IdSet::from_slice(&[0, 2]);
    assert_eq!(AccValue::from_set(&too_large, &pk).err(), Some(SetupError::ElementOutOfRange));
    assert_eq!(AccValue::from_set(&zero, &pk).err(), Some(SetupError::ElementOutOfRange));
    assert_eq!(
        AccValue::from_set_sk(&too_large, &sk, q).err(),
        Some(SetupError::ElementOutOfRange)
    );
    assert_eq!(AccValue::from_set_sk(&zero, &sk, q).err(), Some(SetupError::ElementOutOfRange));
    assert!(AccValue::from_set(&IdSet::from_slice(&[1, 2, 3]), &pk).is_ok());
}

#[test]
fn a_bound_of_zero_is_rejected() {
    let sk = random_key();
    assert_eq!(AccPublicKey::gen_key(&sk, 0).err(), Some(SetupError::InvalidBound));
    let pk = AccPublicKey::gen_key(&sk, 1).unwrap();
    assert_eq!(pk.q(), 1);
}

#[test]
fn a_key_with_a_zero_scalar_is_rejected() {
    assert!(AccSecretKey::new(Scalar::from_u64(0), Scalar::from_u64(3)).is_none());
    assert!(AccSecretKey::new(Scalar::from_u64(3), Scalar::from_u64(0)).is_none());
    assert!(AccSecretKey::new(Scalar::from_u64(3), Scalar::from_u64(5)).is_some());
}

#[test]
fn public_powers_are_what_the_trapdoor_gives() {
    let q = 3u64;
    let s = Scalar::from_u64(7);
    let r = Scalar::from_u64(11);
    let sk = AccSecretKeyWithPowCache::new(AccSecretKey::new(s, r).unwrap(), 2);
    let pk = AccPublicKey::gen_key(&sk, q).unwrap();
    for i in 0..=q {
        assert!(pk.get_g_s_i(i).same(&G1Point::generator_mul(&Scalar::from_u64(7u64.pow(i as u32)))));
        assert!(pk.get_g_r_i(i).same(&G1Point::generator_mul(&Scalar::from_u64(11u64.pow(i as u32)))));
        let s_r = 7u64.pow(i as u32) * 11u64.pow((q - i) as u32);
        let r_s = 11u64.pow(i as u32) * 7u64.pow((q - i) as u32);
        assert!(pk.get_h_s_r_i(i).same(&G2Point::generator_mul(&Scalar::from_u64(s_r))));
        assert!(pk.get_h_r_s_i(i).same(&G2Point::generator_mul(&Scalar::from_u64(r_s))));
    }
    // the accumulator of {1, 3}: exponents 7 + 343 and 11 + 1331
    let acc = AccValue::from_set(&IdSet::from_slice(&[1, 3]), &pk).unwrap();
    let expected = AccValue::new(
        G1Point::generator_mul(&Scalar::from_u64(350)),
        G1Point::generator_mul(&Scalar::from_u64(1342)),
        G2Point::generator_mul(&Scalar::from_u64(7 * 121 + 343)),
        G2Point::generator_mul(&Scalar::from_u64(11 * 49 + 1331)),
    );
    assert_eq!(acc, expected);
}

#[test]
fn scalar_arithmetic_is_modular() {
    // the modulus less one, as limbs
    let top = Scalar::from_limbs([
        4891460686036598784,
        2896914383306846353,
        13281191951274694749,
        3486998266802970665,
    ])
    .unwrap();
    assert!(Scalar::from_limbs([
        4891460686036598785,
        2896914383306846353,
        13281191951274694749,
        3486998266802970665,
    ])
    .is_none());
    assert!(Scalar::from_limbs([0, 0, 0, 3486998266802970666]).is_none());
    assert_eq!(top.add(&Scalar::from_u64(2)).to_limbs(), [1, 0, 0, 0]);
    assert_eq!(top.mul(&top).to_limbs(), [1, 0, 0, 0]);
    assert_eq!(top.pow(2).to_limbs(), [1, 0, 0, 0]);
    assert_eq!(Scalar::from_u64(2).pow(10).to_limbs(), [1024, 0, 0, 0]);
    assert_eq!(Scalar::from_u64(5).pow(0).to_limbs(), [1, 0, 0, 0]);
    assert_eq!(Scalar::from_u64(6).mul(&Scalar::from_u64(7)).to_limbs(), [42, 0, 0, 0]);
    assert_eq!(
        Scalar::from_u64(u64::MAX).add(&Scalar::from_u64(1)).to_limbs(),
        [0, 1, 0, 0]
    );
    assert!(Scalar::from_u64(0).is_zero());
    assert!(!top.is_zero());
}

#[test]
fn points_add_as_their_factors() {
    let three = G1Point::generator_mul(&Scalar::from_u64(3));
    let four = G1Point::generator_mul(&Scalar::from_u64(4));
    let seven = G1Point::generator_mul(&Scalar::from_u64(7));
    assert!(three.add(&four).same(&seven));
    assert!(!three.add(&three).same(&seven));
    assert!(seven.add(&four.neg()).same(&three));
    assert!(three.add(&three.neg()).same(&G1Point::zero()));
    assert!(G1Point::zero().neg().same(&G1Point::zero()));
    let a = G2Point::generator_mul(&Scalar::from_u64(10));
    let b = G2Point::generator_mul(&Scalar::from_u64(5));
    assert!(b.add(&b).same(&a));
    assert!(a.add(&b.neg()).same(&b));
    assert!(a.add(&G2Point::zero()).same(&a));
}

#[test]
fn points_are_read_back_from_their_bytes() {
    let p = G1Point::generator_mul(&Scalar::from_u64(12345));
    let bytes = *p.as_bytes();
    assert!(G1Point::from_bytes(&bytes).unwrap().same(&p));
    let zero = *G1Point::zero().as_bytes();
    assert_eq!(zero[64], 1);
    assert!(G1Point::from_bytes(&zero).unwrap().same(&G1Point::zero()));
    // off the curve
    let mut bad = bytes;
    bad[0] ^= 1;
    assert!(G1Point::from_bytes(&bad).is_none());
    // infinity with other coordinates than those of the neutral element
    let mut odd_zero = zero;
    odd_zero[0] ^= 1;
    assert!(G1Point::from_bytes(&odd_zero).is_none());
    // a flag byte that is neither 0 nor 1
    let mut flag = bytes;
    flag[64] = 2;
    assert!(G1Point::from_bytes(&flag).is_none());
    let h = G2Point::generator_mul(&Scalar::from_u64(99));
    let h_bytes = *h.as_bytes();
    assert!(G2Point::from_bytes(&h_bytes).unwrap().same(&h));
    let mut h_bad = h_bytes;
    h_bad[5] ^= 0x10;
    assert!(G2Point::from_bytes(&h_bad).is_none());
}

#[test]
fn digest_is_the_hash_of_the_four_points() {
    let sk = random_key();
    let set = IdSet::from_slice(&[1, 2]);
    let a = AccValue::from_set_sk(&set, &sk, 2).unwrap();
    let b = AccValue::from_set_sk(&set, &sk, 2).unwrap();
    assert_eq!(a.to_digest(), b.to_digest());
    let pk = AccPublicKey::gen_key(&sk, 2).unwrap();
    assert_eq!(AccValue::from_set(&set, &pk).unwrap().to_digest(), a.to_digest());

    let g = G1Point::generator_mul(&Scalar::from_u64(2));
    let h = G2Point::generator_mul(&Scalar::from_u64(3));
    let acc = AccValue::new(g, G1Point::zero(), h, G2Point::zero());
    let mut bytes = Vec::new();
    bytes.extend_from_slice(g.as_bytes());
    bytes.extend_from_slice(G1Point::zero().as_bytes());
    bytes.extend_from_slice(h.as_bytes());
    bytes.extend_from_slice(G2Point::zero().as_bytes());
    assert_eq!(bytes.len(), 65 + 65 + 129 + 129);
    assert_eq!(acc.to_digest(), Digest::hash(&bytes));
    assert_ne!(acc.to_digest(), AccValue::empty().to_digest());
}

#[test]
fn cached_powers_are_the_powers() {
    let key = AccSecretKey::new(Scalar::from_u64(3), Scalar::from_u64(10)).unwrap();
    for window in [0usize, 1, 3, 8] {
        let cached = AccSecretKeyWithPowCache::new(key, window);
        for i in 0..6u64 {
            assert_eq!(cached.s_pow(i).to_limbs(), [3u64.pow(i as u32), 0, 0, 0]);
            assert_eq!(cached.r_pow(i).to_limbs(), [10u64.pow(i as u32), 0, 0, 0]);
            assert_eq!(key.s_pow(i).to_limbs(), [3u64.pow(i as u32), 0, 0, 0]);
            assert_eq!(key.r_pow(i).to_limbs(), [10u64.pow(i as u32), 0, 0, 0]);
        }
        let copy = cached.clone();
        assert_eq!(copy.s_pow(5).to_limbs(), [243, 0, 0, 0]);
        assert!(cached.g_pow(&Scalar::from_u64(4)).same(&G1Point::generator_mul(&Scalar::from_u64(4))));
        assert!(cached.h_pow(&Scalar::from_u64(4)).same(&G2Point::generator_mul(&Scalar::from_u64(4))));
    }
    let by_default: AccSecretKeyWithPowCache = key.into();
    assert_eq!(by_default.s_pow(70).to_limbs(), Scalar::from_u64(3).pow(70).to_limbs());
}
