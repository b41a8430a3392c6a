use rand::RngCore;
use secq256k1::batch::batch_to_affine;
use secq256k1::curve::{Secq256k1, Secq256k1Affine, Secq256k1Compressed};
use secq256k1::fp::Fp;
use secq256k1::fq::Fq;

fn random_scalar() -> Fq {
    let mut wide = [0u8; 64];
    rand_core::OsRng.fill_bytes(&mut wide);
    Fq::from_bytes_wide(&wide)
}

fn random_point() -> Secq256k1 {
    Secq256k1::generator().scalar_mul(&random_scalar())
}

fn mod_n(x: Fp) -> Fq {
    let mut x_repr = [0u8; 32];
    x_repr.copy_from_slice(x.to_repr().as_ref());
    let mut x_bytes = [0u8; 64];
    x_bytes[..32].copy_from_slice(&x_repr[..]);
    Fq::from_bytes_wide(&x_bytes)
}

#[test]
fn test_curve() {
    let id = Secq256k1::identity();
    let g = Secq256k1::generator();
    assert!(id.is_identity());
    assert!(id.is_on_curve());
    assert!(g.is_on_curve());
    assert!(!g.is_identity());
    for _ in 0..8 {
        let a = random_point();
        let b = random_point();
        let c = random_point();
        assert!(a.is_on_curve());
        assert!(a.add(&b).is_on_curve());
        assert!(a.double().is_on_curve());
        // associativity and commutativity
        assert!(a.add(&b).add(&c).equals(&a.add(&b.add(&c))));
        assert!(a.add(&b).equals(&b.add(&a)));
        // identity
        assert!(a.add(&id).equals(&a));
        assert!(id.add(&a).equals(&a));
        // inverse
        assert!(a.add(&a.neg()).is_identity());
        assert!(a.sub(&a).is_identity());
        assert!(a.sub(&b).add(&b).equals(&a));
        // doubling
        assert!(a.double().equals(&a.add(&a)));
        // projective equality ignores the representative
        let again = a.to_affine().to_curve();
        assert!(again.equals(&a));
        assert!(again.add(&a).equals(&a.double()));
        // scalar multiplication
        let k1 = random_scalar();
        let k2 = random_scalar();
        let sum = k1.add(&k2);
        assert!(a.scalar_mul(&sum).equals(&a.scalar_mul(&k1).add(&a.scalar_mul(&k2))));
        let prod = k1.mul(&k2);
        assert!(a.scalar_mul(&k1).scalar_mul(&k2).equals(&a.scalar_mul(&prod)));
        assert!(a.scalar_mul(&Fq::zero()).is_identity());
        assert!(a.scalar_mul(&Fq::one()).equals(&a));
        // cofactor
        assert!(a.is_torsion_free());
        assert!(a.clear_cofactor().equals(&a));
        assert!(a.into_subgroup().unwrap().equals(&a));
    }
    assert!(id.double().is_identity());
    assert!(id.neg().is_identity());
    assert!(id.to_affine().is_identity());
    assert!(Secq256k1Affine::identity().to_curve().is_identity());
}

#[test]
fn test_serialization() {
    for _ in 0..16 {
        let p = random_point().to_affine();
        let bytes = p.to_bytes();
        let q = Secq256k1Affine::from_bytes(&bytes).unwrap();
        assert_eq!(p, q);
        let n = p.neg();
        let m = Secq256k1Affine::from_bytes(&n.to_bytes()).unwrap();
        assert_eq!(n, m);
        assert_ne!(p.to_bytes().bytes[0], n.to_bytes().bytes[0]);
    }
    let id = Secq256k1Affine::identity();
    let bytes = id.to_bytes();
    assert_eq!(bytes.bytes[0], 0x80);
    assert_eq!(Secq256k1Affine::from_bytes(&bytes).unwrap(), id);
}

#[test]
fn ecdsa_example() {
    let g = Secq256k1::generator();

    for _ in 0..1000 {
        // Generate a key pair
        let sk = random_scalar();
        let pk = g.scalar_mul(&sk).to_affine();

        // Generate a valid signature
        let msg_hash = random_scalar();

        let (r, s) = {
            let k = random_scalar();
            let k_inv = k.invert().unwrap();

            let r_point = g.scalar_mul(&k).to_affine().coordinates().unwrap();
            let x = r_point.0;
            let r = mod_n(x);

            let s = k_inv.mul(&msg_hash.add(&r.mul(&sk)));

            (r, s)
        };

        {
            // Verify
            let s_inv = s.invert().unwrap();
            let u_1 = msg_hash.mul(&s_inv);
            let u_2 = r.mul(&s_inv);

            let v_1 = g.scalar_mul(&u_1);
            let v_2 = pk.to_curve().scalar_mul(&u_2);

            let r_point = v_1.add(&v_2).to_affine().coordinates().unwrap();
            let x_candidate = r_point.0;
            let r_candidate = mod_n(x_candidate);

            assert_eq!(r, r_candidate);
        }
    }
}

#[test]
fn generator_satisfies_the_equation() {
    let g = Secq256k1Affine::generator();
    let lhs = g.y.square();
    let rhs = g.x.square().mul(&g.x).add(&Fp::from_u64(7));
    assert_eq!(lhs, rhs);
    assert!(g.is_on_curve());
    assert_eq!(
        g.x,
        Fp::from_raw([0x860fee175831bb20, 0x2cabb9347a25101b, 0xe7590cbef17c26fc, 0x9214b8774eb1412b])
    );
    assert_eq!(
        g.y,
        Fp::from_raw([0x14a1bc519466eb6b, 0x836a6e341a88892a, 0xecc5b53440a7598a, 0x28cb5b51a30b5532])
    );
    assert_eq!(g.into_coordinates(), (g.x, g.y));
    assert_eq!(g.coordinates(), Some((g.x, g.y)));
    assert_eq!(Secq256k1Affine::identity().coordinates(), None);
}

#[test]
fn generator_has_the_scalar_field_order() {
    // q - 1 times the generator is its inverse
    let minus_one = Fq::zero().sub(&Fq::one());
    let g = Secq256k1::generator();
    assert!(g.scalar_mul(&minus_one).equals(&g.neg()));
    assert!(g.scalar_mul(&minus_one).add(&g).is_identity());
}

#[test]
fn small_multiples_agree() {
    let g = Secq256k1::generator();
    let two = g.double();
    let three = two.add(&g);
    let five = three.add(&two);
    assert!(g.scalar_mul(&Fq::from_u64(2)).equals(&two));
    assert!(g.scalar_mul(&Fq::from_u64(3)).equals(&three));
    assert!(g.scalar_mul(&Fq::from_u64(5)).equals(&five));
    assert!(!two.equals(&three));
    assert!(!g.equals(&g.neg()));
}

#[test]
fn decode_rejects_x_without_a_root() {
    // 2^3 + 7 = 15 is not a square in the base field
    let mut bytes = [0u8; 33];
    bytes[1] = 2;
    assert!(Secq256k1Affine::from_bytes(&Secq256k1Compressed { bytes }).is_none());
    bytes[0] = 1;
    assert!(Secq256k1Affine::from_bytes(&Secq256k1Compressed { bytes }).is_none());
    // 1^3 + 7 = 8 is a square
    bytes[1] = 1;
    let odd = Secq256k1Affine::from_bytes(&Secq256k1Compressed { bytes }).unwrap();
    bytes[0] = 0;
    let even = Secq256k1Affine::from_bytes(&Secq256k1Compressed { bytes }).unwrap();
    assert!(odd.is_on_curve() && even.is_on_curve());
    assert_eq!(odd.x, Fp::one());
    assert_eq!(odd.y, even.y.neg());
    assert!(odd.y.is_odd() && !even.y.is_odd());
    assert_eq!(odd.y.square(), Fp::from_u64(8));
}

#[test]
fn decode_rejects_bad_headers_and_unreduced_x() {
    let mut bytes = [0u8; 33];
    bytes[0] = 2;
    bytes[1] = 1;
    assert!(Secq256k1Affine::from_bytes(&Secq256k1Compressed { bytes }).is_none());
    bytes[0] = 0x80;
    assert!(Secq256k1Affine::from_bytes(&Secq256k1Compressed { bytes }).is_none());
    bytes[1] = 0;
    assert_eq!(
        Secq256k1Affine::from_bytes(&Secq256k1Compressed { bytes }).unwrap(),
        Secq256k1Affine::identity()
    );
    let all_ones = Secq256k1Compressed { bytes: [0xff; 33] };
    assert!(Secq256k1Affine::from_bytes(&all_ones).is_none());
    let mut big = [0xffu8; 33];
    big[0] = 0;
    assert!(Secq256k1Affine::from_bytes(&Secq256k1Compressed { bytes: big }).is_none());
}

#[test]
fn decode_with_root_picks_the_parity() {
    let x = Fp::one();
    let r = Fp::from_u64(5);
    let odd = Secq256k1Affine::decode_with_root(1, &x, Some(r)).unwrap();
    assert_eq!(odd.y, r);
    let even = Secq256k1Affine::decode_with_root(0, &x, Some(r)).unwrap();
    assert_eq!(even.y, r.neg());
    assert!(Secq256k1Affine::decode_with_root(0, &x, None).is_none());
    // zero has no odd root
    assert!(Secq256k1Affine::decode_with_root(1, &x, Some(Fp::zero())).is_none());
    assert_eq!(Secq256k1Affine::decode_with_root(0, &x, Some(Fp::zero())).unwrap().y, Fp::zero());
}

#[test]
fn batch_conversion_matches_single_conversion() {
    let mut rng = rand::thread_rng();
    let mut points = Vec::new();
    for i in 0..12 {
        if i % 4 == 1 {
            points.push(Secq256k1::identity());
        } else {
            let mut wide = [0u8; 64];
            rng.fill_bytes(&mut wide);
            points.push(Secq256k1::generator().scalar_mul(&Fq::from_bytes_wide(&wide)).double());
        }
    }
    let batch = batch_to_affine(&points);
    assert_eq!(batch.len(), points.len());
    for (p, a) in points.iter().zip(batch.iter()) {
        assert_eq!(p.to_affine(), *a);
        assert!(a.is_on_curve());
        assert!(a.to_curve().equals(p));
    }
    assert!(batch[1].is_identity() && batch[5].is_identity() && batch[9].is_identity());
    assert!(!batch[0].is_identity());
    assert!(batch_to_affine(&Vec::new()).is_empty());
    let only_identities = batch_to_affine(&vec![Secq256k1::identity(), Secq256k1::identity()]);
    assert_eq!(only_identities, vec![Secq256k1Affine::identity(), Secq256k1Affine::identity()]);
    let one = batch_to_affine(&vec![Secq256k1::generator()]);
    assert_eq!(one, vec![Secq256k1Affine::generator()]);
}

#[test]
fn reduced_values_are_recognised() {
    assert!(Secq256k1::generator().is_reduced());
    assert!(Secq256k1Affine::identity().is_reduced());
    let mut g = Secq256k1Affine::generator();
    assert!(g.is_reduced());
    g.infinity = true;
    assert!(!g.is_reduced());
    let mut p = Secq256k1::generator();
    p.z.limbs.l3 = u64::MAX;
    p.z.limbs.l2 = u64::MAX;
    assert!(!p.is_reduced());
    let top = Fp::from_raw([0, 0, 0, 0]).sub(&Fp::one());
    assert!(top.is_reduced());
    let mut over = top;
    over.limbs.l0 += 1;
    assert!(!over.is_reduced());
}

#[test]
fn affine_selection_and_negation() {
    let g = Secq256k1Affine::generator();
    let id = Secq256k1Affine::identity();
    assert_eq!(Secq256k1Affine::select(&g, &id, true), id);
    assert_eq!(Secq256k1Affine::select(&g, &id, false), g);
    assert_eq!(Secq256k1Affine::select(&id, &g, true), g);
    assert!(g.equals(&g) && !g.equals(&id) && !g.equals(&g.neg()));
    assert!(g.neg().is_on_curve());
    assert_eq!(g.neg().neg(), g);
    assert!(g.to_curve().add(&g.neg().to_curve()).is_identity());
    let a = Secq256k1::generator();
    let b = a.double();
    assert!(Secq256k1::select(&a, &b, true).equals(&b));
    assert!(Secq256k1::select(&a, &b, false).equals(&a));
}
