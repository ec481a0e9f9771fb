//! Field arithmetic, batch inversion, domain construction, and the transforms
//! over the first curve group.
use kzg::batch_inversion::batch_inverse;
use kzg::domain::{fft_g1, largest_root_of_unity, take_even_odd, Domain};
use kzg::points::{g1_add, g1_generator, g1_mul, g1_msm, G1Point};
use kzg::scalar::{scalar_add, scalar_inv, scalar_mul, scalar_pow, scalar_sub, Scalar};

fn next_u64(state: &mut u64) -> u64 {
    let mut x = *state;
    x ^= x << 13;
    x ^= x >> 7;
    x ^= x << 17;
    *state = x;
    x
}

fn random_scalar(state: &mut u64) -> Scalar {
    let a = Scalar::from_u64(next_u64(state));
    let b = Scalar::from_u64(next_u64(state));
    let c = Scalar::from_u64(next_u64(state));
    scalar_add(&scalar_mul(&a, &b), &c)
}

#[test]
fn largest_group_has_correct_order() {
    let root = largest_root_of_unity();
    let order = 2u64.pow(32);

    assert!(scalar_pow(&root, order).eq_value(&Scalar::one()))
}

#[test]
fn scalar_arithmetic_matches_small_integers() {
    let a = Scalar::from_u64(41);
    let b = Scalar::from_u64(58);
    assert!(scalar_add(&a, &b).eq_value(&Scalar::from_u64(99)));
    assert!(scalar_mul(&a, &b).eq_value(&Scalar::from_u64(2378)));
    assert!(scalar_sub(&b, &a).eq_value(&Scalar::from_u64(17)));
    assert!(scalar_pow(&a, 3).eq_value(&Scalar::from_u64(68921)));
}

#[test]
fn scalar_inverse_of_zero_is_none() {
    assert!(Scalar::zero().is_zero());
    assert!(!Scalar::one().is_zero());
    assert!(scalar_inv(&Scalar::zero()).is_none());
    let two = Scalar::from_u64(2);
    let inv = scalar_inv(&two).unwrap();
    assert!(scalar_mul(&two, &inv).eq_value(&Scalar::one()));
}

#[test]
fn batch_inverse_gives_elementwise_inverses() {
    let mut state = 0x9e3779b97f4a7c15u64;
    let original: Vec<Scalar> = (0..33).map(|_| random_scalar(&mut state)).collect();
    let mut inverted = original.clone();
    batch_inverse(&mut inverted);

    for (inv, orig) in inverted.iter().zip(original.iter()) {
        assert!(scalar_mul(inv, orig).eq_value(&Scalar::one()));
    }
}

#[test]
fn generator_has_minimal_order() {
    for log_size in 0..17u32 {
        let n = 2usize.pow(log_size);
        let domain = Domain::new(n);
        assert_eq!(domain.size(), n);
        assert!(scalar_pow(&domain.generator, n as u64).eq_value(&Scalar::one()));
        if n >= 2 {
            assert!(!scalar_pow(&domain.generator, (n / 2) as u64).eq_value(&Scalar::one()));
        }
    }
}

#[test]
fn domain_rounds_up_to_next_power_of_two() {
    assert_eq!(Domain::new(0).size(), 1);
    assert_eq!(Domain::new(5).size(), 8);
    assert_eq!(Domain::new(8).size(), 8);
    assert_eq!(Domain::new(100).size(), 128);
}

#[test]
fn domain_roots_are_generator_powers() {
    let domain = Domain::new(16);
    assert!(domain.roots()[0].eq_value(&Scalar::one()));
    for i in 0..16u64 {
        assert!(domain.roots()[i as usize].eq_value(&scalar_pow(&domain.generator, i)));
    }
    assert!(scalar_mul(&domain.generator, &domain.generator_inv).eq_value(&Scalar::one()));
    assert!(domain.domain_size.eq_value(&Scalar::from_u64(16)));
    assert!(scalar_mul(&domain.domain_size, &domain.domain_size_inv).eq_value(&Scalar::one()));
}

#[test]
fn find_locates_every_root_and_nothing_else() {
    let domain = Domain::new(8);
    for i in 0..8 {
        assert_eq!(domain.find(&domain.roots()[i]), Some(i));
    }
    assert_eq!(domain.find(&Scalar::from_u64(12345)), None);
}

#[test]
fn take_even_odd_splits_by_index() {
    let gen = g1_generator();
    let points: Vec<G1Point> =
        (1..7u64).map(|k| g1_mul(&gen, &Scalar::from_u64(k))).collect();
    let (even, odd) = take_even_odd(&points);
    assert_eq!(even.len(), 3);
    assert_eq!(odd.len(), 3);
    for k in 0..3 {
        assert!(even[k].eq_point(&points[2 * k]));
        assert!(odd[k].eq_point(&points[2 * k + 1]));
    }
}

#[test]
fn g1_double_by_scalar_matches_addition() {
    let gen = g1_generator();
    let p = g1_mul(&gen, &Scalar::from_u64(7));
    let doubled = g1_mul(&p, &Scalar::from_u64(2));
    assert!(doubled.eq_point(&g1_add(&p, &p)));
    assert!(!doubled.eq_point(&p));
}

#[test]
fn g1_msm_of_singleton_is_scalar_multiplication() {
    let gen = g1_generator();
    let p = g1_mul(&gen, &Scalar::from_u64(11));
    let k = Scalar::from_u64(23);
    let msm = g1_msm(&vec![p], &vec![k]);
    assert!(msm.eq_point(&g1_mul(&p, &k)));
}

#[test]
fn ifft_g1_inverts_the_forward_transform() {
    let mut state = 0xdeadbeefcafef00du64;
    let domain = Domain::new(8);
    let gen = g1_generator();
    let points: Vec<G1Point> =
        (0..8).map(|_| g1_mul(&gen, &random_scalar(&mut state))).collect();

    let image = fft_g1(&domain.generator, &points);
    let recovered = domain.ifft_g1(image);

    assert_eq!(recovered.len(), points.len());
    for (r, p) in recovered.iter().zip(points.iter()) {
        assert!(r.eq_point(p));
    }
}

#[test]
fn serialized_sizes_are_fixed() {
    assert_eq!(kzg::SCALAR_SERIALIZED_SIZE, 32);
    assert_eq!(kzg::G1_POINT_SERIALIZED_SIZE, 48);
    assert_eq!(kzg::G2_POINT_SERIALIZED_SIZE, 96);
}
