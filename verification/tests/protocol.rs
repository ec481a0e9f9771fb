//! Polynomial evaluation, quotient computation, and the opening protocol
//! end to end.
use kzg::domain::Domain;
use kzg::params::PublicParameters;
use kzg::polynomial::Polynomial;
use kzg::scalar::{scalar_add, scalar_mul, scalar_sub, Scalar};
use kzg::utils;

fn next_u64(state: &mut u64) -> u64 {
    let mut x = *state;
    x ^= x << 13;
    x ^= x >> 7;
    x ^= x << 17;
    *state = x;
    x
}

fn random_scalar(state: &mut u64) -> Scalar {
    let a = Scalar::from_u64(next_u64(state));
    let b = Scalar::from_u64(next_u64(state));
    let c = Scalar::from_u64(next_u64(state));
    scalar_add(&scalar_mul(&a, &b), &c)
}

fn random_vector(length: usize, state: &mut u64) -> Vec<Scalar> {
    (0..length).map(|_| random_scalar(state)).collect()
}

#[test]
fn evaluate_at_domain_root_returns_stored_value() {
    let domain = Domain::new(8);
    let evals: Vec<Scalar> = (10..18u64).map(Scalar::from_u64).collect();
    let poly = Polynomial::new(evals.clone());
    for i in 0..8 {
        let value = poly.evaluate(domain.roots()[i], &domain);
        assert!(value.eq_value(&evals[i]));
    }
}

#[test]
fn evaluate_interpolates_constant_and_linear_polynomials() {
    let domain = Domain::new(8);

    // A constant polynomial evaluates to the constant everywhere.
    let c = Scalar::from_u64(7);
    let constant = Polynomial::new(vec![c; 8]);
    let z = Scalar::from_u64(123456);
    assert_eq!(domain.find(&z), None);
    assert!(constant.evaluate(z, &domain).eq_value(&c));

    // A linear polynomial a*X + b evaluates to a*z + b.
    let a = Scalar::from_u64(3);
    let b = Scalar::from_u64(5);
    let evals: Vec<Scalar> =
        (0..8).map(|i| scalar_add(&scalar_mul(&a, &domain.roots()[i]), &b)).collect();
    let linear = Polynomial::new(evals);
    let expected = scalar_add(&scalar_mul(&a, &z), &b);
    assert!(linear.evaluate(z, &domain).eq_value(&expected));
}

#[test]
fn quotient_satisfies_division_relation_outside_domain() {
    let mut state = 0x1234_5678_9abc_def1u64;
    let domain = Domain::new(16);
    let evals = random_vector(16, &mut state);
    let poly = Polynomial::new(evals.clone());

    let z = Scalar::from_u64(987654321);
    assert_eq!(domain.find(&z), None);
    let y = poly.evaluate(z, &domain);
    let quotient = utils::compute(&poly, z, y, &domain);

    // q(r_i) * (r_i - z) == p(r_i) - y at every domain root.
    for i in 0..16 {
        let lhs = scalar_mul(&quotient.evaluations[i], &scalar_sub(&domain.roots()[i], &z));
        let rhs = scalar_sub(&evals[i], &y);
        assert!(lhs.eq_value(&rhs));
    }
}

#[test]
fn quotient_satisfies_division_relation_in_domain() {
    let mut state = 0xfeed_5eed_0123_4567u64;
    let domain = Domain::new(16);
    let evals = random_vector(16, &mut state);
    let poly = Polynomial::new(evals.clone());

    let j = 5usize;
    let z = domain.roots()[j];
    assert_eq!(domain.find(&z), Some(j));
    let y = poly.evaluate(z, &domain);
    assert!(y.eq_value(&evals[j]));
    let quotient = utils::compute(&poly, z, y, &domain);

    // Away from the point's own index the division relation still holds.
    for i in 0..16 {
        if i == j {
            continue;
        }
        let lhs = scalar_mul(&quotient.evaluations[i], &scalar_sub(&domain.roots()[i], &z));
        let rhs = scalar_sub(&evals[i], &y);
        assert!(lhs.eq_value(&rhs));
    }
}

#[test]
fn single_evaluation_polynomial_is_constant() {
    let domain = Domain::new(1);
    let c = Scalar::from_u64(42);
    let poly = Polynomial::new(vec![c]);
    assert!(poly.evaluate(domain.roots()[0], &domain).eq_value(&c));
    assert!(poly.evaluate(Scalar::from_u64(99), &domain).eq_value(&c));
}

#[test]
fn polynomial_equality_compares_values() {
    let a = Polynomial::new(vec![Scalar::from_u64(1), Scalar::from_u64(2)]);
    let b = Polynomial::new(vec![Scalar::from_u64(1), Scalar::from_u64(2)]);
    let c = Polynomial::new(vec![Scalar::from_u64(1), Scalar::from_u64(3)]);
    assert!(a == b);
    assert!(a != c);
}

#[test]
fn valid_proof_smoke() {
    let mut state = 0x0dd0_b10c_ca75_eedcu64;
    let size = 2usize.pow(8);

    let domain = Domain::new(size);
    let public_parameters = PublicParameters::from_secret_insecure(123456789, &domain);

    let poly = Polynomial::new(random_vector(size, &mut state));
    let poly_comm = public_parameters.commit_key.commit(&poly);

    let input_point = Scalar::from_u64(123456u64);
    let proof = kzg::kzg::proofs::Proof::create(
        &public_parameters.commit_key,
        &poly,
        poly_comm,
        input_point,
        &domain,
    );
    assert!(proof.verify(input_point, &public_parameters.opening_key));
    assert!(!proof.verify(
        scalar_add(&input_point, &input_point),
        &public_parameters.opening_key,
    ));
}

#[test]
fn proof_valid_proof_smoke() {
    let mut state = 0x5ca1_ab1e_0b57_ac1eu64;
    let size = 2usize.pow(8);

    let domain = Domain::new(size);
    let public_parameters = PublicParameters::from_secret_insecure(123456789, &domain);

    let poly = Polynomial::new(random_vector(size, &mut state));
    let poly_comm = public_parameters.commit_key.commit(&poly);

    let input_point = Scalar::from_u64(123456u64);
    let proof = kzg::proofs::Proof::create(
        &public_parameters.commit_key,
        &poly,
        poly_comm,
        input_point,
        &domain,
    );
    assert!(proof.verify(input_point, &public_parameters.opening_key));
    assert!(!proof.verify(
        scalar_add(&input_point, &input_point),
        &public_parameters.opening_key,
    ));
}

#[test]
fn proof_fails_against_a_different_setup() {
    let mut state = 0xc0ff_ee00_dead_beefu64;
    let size = 256usize;

    let domain = Domain::new(size);
    let honest = PublicParameters::from_secret_insecure(123456789, &domain);
    let other = PublicParameters::from_secret_insecure(987654321, &domain);

    let poly = Polynomial::new(random_vector(size, &mut state));
    let poly_comm = honest.commit_key.commit(&poly);

    let input_point = Scalar::from_u64(123456u64);
    let proof =
        kzg::proofs::Proof::create(&honest.commit_key, &poly, poly_comm, input_point, &domain);
    assert!(proof.verify(input_point, &honest.opening_key));
    assert!(!proof.verify(input_point, &other.opening_key));
}

#[test]
fn proof_verifies_at_a_domain_point() {
    let mut state = 0x0123_4567_89ab_cdefu64;
    let size = 64usize;

    let domain = Domain::new(size);
    let public_parameters = PublicParameters::from_secret_insecure(424242, &domain);

    let poly = Polynomial::new(random_vector(size, &mut state));
    let poly_comm = public_parameters.commit_key.commit(&poly);

    // The query point is a domain root, so the quotient goes through the
    // analytic limit formula at the matching index.
    let input_point = domain.roots()[17];
    let proof = kzg::proofs::Proof::create(
        &public_parameters.commit_key,
        &poly,
        poly_comm,
        input_point,
        &domain,
    );
    assert!(proof.verify(input_point, &public_parameters.opening_key));
    assert!(!proof.verify(
        scalar_add(&input_point, &input_point),
        &public_parameters.opening_key,
    ));
}
