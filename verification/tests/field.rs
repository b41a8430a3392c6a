use secq256k1::fp::Fp;
use secq256k1::fq::Fq;
use secq256k1::limbs::U256;

const FP_MODULUS: [u64; 4] =
    [0xbfd25e8cd0364141, 0xbaaedce6af48a03b, 0xfffffffffffffffe, 0xffffffffffffffff];
const FQ_MODULUS: [u64; 4] =
    [0xfffffffefffffc2f, 0xffffffffffffffff, 0xffffffffffffffff, 0xffffffffffffffff];

#[test]
fn from_raw_reduces_once() {
    assert_eq!(Fp::from_raw(FP_MODULUS), Fp::zero());
    assert_eq!(Fq::from_raw(FQ_MODULUS), Fq::zero());
    let mut above = FP_MODULUS;
    above[0] += 5;
    assert_eq!(Fp::from_raw(above), Fp::from_u64(5));
    assert_eq!(Fp::from_raw([u64::MAX; 4]), Fp::from_raw([0x402da1732fc9bebe, 0x4551231950b75fc4, 1, 0]));
    assert_eq!(Fq::from_raw([u64::MAX; 4]), Fq::from_u64(0x1000003d0));
}

#[test]
fn addition_wraps_at_the_modulus() {
    let minus_one = Fp::from_raw([0xbfd25e8cd0364140, 0xbaaedce6af48a03b, 0xfffffffffffffffe, 0xffffffffffffffff]);
    assert_eq!(minus_one.add(&Fp::one()), Fp::zero());
    assert_eq!(minus_one.add(&Fp::from_u64(3)), Fp::from_u64(2));
    assert_eq!(Fp::zero().sub(&Fp::one()), minus_one);
    assert_eq!(Fp::one().neg(), minus_one);
    assert_eq!(Fp::zero().neg(), Fp::zero());
    assert_eq!(minus_one.double(), Fp::zero().sub(&Fp::from_u64(2)));
    assert_eq!(Fp::from_u64(u64::MAX).add(&Fp::one()), Fp::from_raw([0, 1, 0, 0]));
}

#[test]
fn multiplication_matches_known_products() {
    assert_eq!(Fp::from_u64(6).mul(&Fp::from_u64(7)), Fp::from_u64(42));
    let minus_one = Fp::one().neg();
    assert_eq!(minus_one.mul(&minus_one), Fp::one());
    assert_eq!(minus_one.square(), Fp::one());
    // 2^64 * 2^192 = 2^256 = 2^256 - n modulo n
    let a = Fp::from_raw([0, 1, 0, 0]);
    let b = Fp::from_raw([0, 0, 0, 1]);
    assert_eq!(a.mul(&b), Fp::from_raw([0x402da1732fc9bebf, 0x4551231950b75fc4, 1, 0]));
    let c = Fq::from_raw([0, 1, 0, 0]);
    let d = Fq::from_raw([0, 0, 0, 1]);
    assert_eq!(c.mul(&d), Fq::from_u64(0x1000003d1));
    assert_eq!(Fq::from_u64(u64::MAX).mul(&Fq::from_u64(u64::MAX)), Fq::from_raw([1, 0xfffffffffffffffe, 0, 0]));
}

#[test]
fn powers_follow_the_exponent_bits() {
    let three = Fp::from_u64(3);
    let e = U256 { l0: 5, l1: 0, l2: 0, l3: 0 };
    assert_eq!(three.pow(e), Fp::from_u64(243));
    assert_eq!(three.pow(U256 { l0: 0, l1: 0, l2: 0, l3: 0 }), Fp::one());
    assert_eq!(Fp::zero().pow(e), Fp::zero());
    // Fermat: a^(n - 1) = 1
    let e = U256 { l0: FP_MODULUS[0] - 1, l1: FP_MODULUS[1], l2: FP_MODULUS[2], l3: FP_MODULUS[3] };
    assert_eq!(three.pow(e), Fp::one());
}

#[test]
fn inversion_gives_the_inverse_and_refuses_zero() {
    assert!(Fp::zero().invert().is_none());
    assert!(Fq::zero().invert().is_none());
    assert_eq!(Fp::one().invert().unwrap(), Fp::one());
    for w in [2u64, 3, 7, 0xdead_beef, u64::MAX] {
        let a = Fp::from_u64(w);
        assert_eq!(a.mul(&a.invert().unwrap()), Fp::one());
        let b = Fq::from_u64(w);
        assert_eq!(b.mul(&b.invert().unwrap()), Fq::one());
    }
    // the inverse of 2 modulo q is (q + 1) / 2
    assert_eq!(
        Fq::from_u64(2).invert().unwrap(),
        Fq::from_raw([0xffffffff7ffffe18, 0xffffffffffffffff, 0xffffffffffffffff, 0x7fffffffffffffff])
    );
}

#[test]
fn square_roots_are_found_or_refused() {
    assert_eq!(Fp::zero().sqrt().unwrap(), Fp::zero());
    for w in [1u64, 4, 9, 8, 12, 0x1234_5678] {
        let a = Fp::from_u64(w).square();
        let r = a.sqrt().unwrap();
        assert_eq!(r.square(), a);
    }
    let r = Fp::from_u64(8).sqrt().unwrap();
    assert_eq!(r.square(), Fp::from_u64(8));
    // 5 is not a square modulo n, nor is 15
    assert!(Fp::from_u64(5).sqrt().is_none());
    assert!(Fp::from_u64(15).sqrt().is_none());
}

#[test]
fn selection_and_comparison() {
    let a = Fp::from_u64(11);
    let b = Fp::from_raw([1, 2, 3, 4]);
    assert_eq!(Fp::select(&a, &b, false), a);
    assert_eq!(Fp::select(&a, &b, true), b);
    assert!(a.equals(&a));
    assert!(!a.equals(&b));
    assert!(!Fp::from_raw([1, 2, 3, 4]).equals(&Fp::from_raw([1, 2, 3, 5])));
    assert!(Fp::zero().is_zero());
    assert!(!b.is_zero());
    assert!(a.is_odd());
    assert!(!Fp::from_u64(10).is_odd());
    let x = U256 { l0: 1, l1: 2, l2: 3, l3: 4 };
    let y = U256 { l0: 5, l1: 6, l2: 7, l3: 8 };
    assert_eq!(U256::select(x, y, true), y);
    assert_eq!(U256::select(x, y, false), x);
}

#[test]
fn limb_arithmetic_carries_and_borrows() {
    let max = U256 { l0: u64::MAX, l1: u64::MAX, l2: u64::MAX, l3: u64::MAX };
    let one = U256::one();
    let (s, c) = U256::add_carry(max, one);
    assert_eq!((s, c), (U256::zero(), 1));
    let (d, b) = U256::sub_borrow(U256::zero(), one);
    assert_eq!((d, b), (max, 1));
    let (d, b) = U256::sub_borrow(max, one);
    assert_eq!((d, b), (U256 { l0: u64::MAX - 1, l1: u64::MAX, l2: u64::MAX, l3: u64::MAX }, 0));
    let (lo, hi) = U256::mul_word(max, u64::MAX);
    assert_eq!(lo, U256 { l0: 1, l1: u64::MAX, l2: u64::MAX, l3: u64::MAX });
    assert_eq!(hi, u64::MAX - 1);
}

#[test]
fn bytes_round_trip() {
    let a = Fp::from_raw([0x0807060504030201, 0x100f0e0d0c0b0a09, 0x1817161514131211, 0x201f1e1d1c1b1a19]);
    let repr = a.to_repr();
    for (i, b) in repr.iter().enumerate() {
        assert_eq!(*b as usize, i + 1);
    }
    assert_eq!(Fp::from_repr(&repr).unwrap(), a);
    assert!(Fp::from_repr(&[0xff; 32]).is_none());
    assert!(Fq::from_repr(&[0xff; 32]).is_none());
    let mut top = [0xffu8; 32];
    top[0] = 0x2e;
    top[1] = 0xfc;
    top[4] = 0xfe;
    assert_eq!(Fq::from_repr(&top).unwrap(), Fq::zero().sub(&Fq::one()));
    top[0] = 0x2f;
    assert!(Fq::from_repr(&top).is_none());
}

#[test]
fn wide_bytes_are_reduced() {
    let mut wide = [0u8; 64];
    wide[0] = 9;
    assert_eq!(Fq::from_bytes_wide(&wide), Fq::from_u64(9));
    // 2^256 = 2^32 + 977 modulo q
    wide[0] = 0;
    wide[32] = 1;
    assert_eq!(Fq::from_bytes_wide(&wide), Fq::from_u64(0x1000003d1));
    assert_eq!(Fp::from_bytes_wide(&wide), Fp::from_raw([0x402da1732fc9bebf, 0x4551231950b75fc4, 1, 0]));
    // 2^512 - 1 modulo q is (2^32 + 977)^2 - 1
    assert_eq!(Fq::from_bytes_wide(&[0xff; 64]), Fq::from_u64(0x1000003d1).square().sub(&Fq::one()));
}

#[test]
fn random_scalars_differ() {
    let a = Fq::random().unwrap();
    let b = Fq::random().unwrap();
    assert_ne!(a, b);
    let c = Fp::random().unwrap();
    let d = Fp::random().unwrap();
    assert_ne!(c, d);
}

#[test]
fn a_draw_becomes_an_element_or_nothing() {
    assert!(Fq::from_drawn(None).is_none());
    assert!(Fp::from_drawn(None).is_none());
    let mut wide = [0u8; 64];
    wide[0] = 9;
    assert_eq!(Fq::from_drawn(Some(wide)), Some(Fq::from_u64(9)));
    assert_eq!(Fp::from_drawn(Some(wide)), Some(Fp::from_u64(9)));
    wide[0] = 0;
    wide[32] = 1;
    assert_eq!(Fq::from_drawn(Some(wide)), Some(Fq::from_u64(0x1000003d1)));
    assert_eq!(Fp::from_drawn(Some([0xff; 64])), Some(Fp::from_bytes_wide(&[0xff; 64])));
}
