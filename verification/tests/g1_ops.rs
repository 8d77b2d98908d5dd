use bls381_gadgets::circuit::{Circuit, SynthError};
use bls381_gadgets::fields::fp::Fp;
use bls381_gadgets::curves::g1::{AffinePoint, AllocatedG1Point};
use bls12_381::{G1Affine, G1Projective};
use group::Group;
use num_bigint::BigUint;

fn fp_from_be(bytes: &[u8]) -> Fp {
    let n = BigUint::from_bytes_be(bytes);
    Fp::from_digits(&n.to_u32_digits())
}

fn point_of(p: &G1Affine) -> AffinePoint {
    let enc = p.to_uncompressed();
    AffinePoint { x: fp_from_be(&enc[0..48]), y: fp_from_be(&enc[48..96]) }
}

fn coords(p: &G1Affine) -> (BigUint, BigUint) {
    let enc = p.to_uncompressed();
    (
        BigUint::from_bytes_be(&enc[0..48]),
        BigUint::from_bytes_be(&enc[48..96]),
    )
}

fn extract(cs: &mut Circuit, p: &AllocatedG1Point) -> (BigUint, BigUint) {
    let r = p.reduce(cs);
    let a = r.to_affine();
    (BigUint::new(a.x.to_digits()), BigUint::new(a.y.to_digits()))
}

#[test]
fn g1_test_random_add() {
    let mut rng = rand::thread_rng();
    let a = G1Projective::random(&mut rng);
    let b = G1Projective::random(&mut rng);
    let c = a + b;
    let a = G1Affine::from(a);
    let b = G1Affine::from(b);
    let c = G1Affine::from(c);
    let mut cs = Circuit::new();
    let a_alloc = AllocatedG1Point::alloc_element(&mut cs, &point_of(&a));
    let b_alloc = AllocatedG1Point::alloc_element(&mut cs, &point_of(&b));
    let c_alloc = AllocatedG1Point::alloc_element(&mut cs, &point_of(&c));
    let res_alloc = a_alloc.add(&mut cs, &b_alloc);
    assert!(res_alloc.is_ok());
    let res_alloc = res_alloc.unwrap();
    AllocatedG1Point::assert_is_equal(&mut cs, &res_alloc, &c_alloc);
    assert!(cs.is_satisfied());
    assert_eq!(extract(&mut cs, &res_alloc), coords(&c));
}

#[test]
fn test_random_neg() {
    let mut rng = rand::thread_rng();
    let a = G1Projective::random(&mut rng);
    let c = -a;
    let a = G1Affine::from(a);
    let c = G1Affine::from(c);
    let mut cs = Circuit::new();
    let a_alloc = AllocatedG1Point::alloc_element(&mut cs, &point_of(&a));
    let c_alloc = AllocatedG1Point::alloc_element(&mut cs, &point_of(&c));
    let res_alloc = a_alloc.neg(&mut cs);
    AllocatedG1Point::assert_is_equal(&mut cs, &res_alloc, &c_alloc);
    assert!(cs.is_satisfied());
    assert_eq!(extract(&mut cs, &res_alloc), coords(&c));
}

#[test]
fn test_random_triple() {
    let mut rng = rand::thread_rng();
    let a = G1Projective::random(&mut rng);
    let c = a + a.double();
    let a = G1Affine::from(a);
    let c = G1Affine::from(c);
    let mut cs = Circuit::new();
    let a_alloc = AllocatedG1Point::alloc_element(&mut cs, &point_of(&a));
    let c_alloc = AllocatedG1Point::alloc_element(&mut cs, &point_of(&c));
    let res_alloc = a_alloc.triple(&mut cs);
    assert!(res_alloc.is_ok());
    let res_alloc = res_alloc.unwrap();
    AllocatedG1Point::assert_is_equal(&mut cs, &res_alloc, &c_alloc);
    assert!(cs.is_satisfied());
    assert_eq!(extract(&mut cs, &res_alloc), coords(&c));
}

#[test]
fn test_random_double() {
    let mut rng = rand::thread_rng();
    let a = G1Projective::random(&mut rng);
    let c = a.double();
    let a = G1Affine::from(a);
    let c = G1Affine::from(c);
    let mut cs = Circuit::new();
    let a_alloc = AllocatedG1Point::alloc_element(&mut cs, &point_of(&a));
    let c_alloc = AllocatedG1Point::alloc_element(&mut cs, &point_of(&c));
    let res_alloc = a_alloc.double(&mut cs);
    assert!(res_alloc.is_ok());
    let res_alloc = res_alloc.unwrap();
    AllocatedG1Point::assert_is_equal(&mut cs, &res_alloc, &c_alloc);
    assert!(cs.is_satisfied());
    assert_eq!(extract(&mut cs, &res_alloc), coords(&c));
}

#[test]
fn g1_test_random_sub() {
    let mut rng = rand::thread_rng();
    let a = G1Projective::random(&mut rng);
    let b = G1Projective::random(&mut rng);
    let c = a - b;
    let a = G1Affine::from(a);
    let b = G1Affine::from(b);
    let c = G1Affine::from(c);
    let mut cs = Circuit::new();
    let a_alloc = AllocatedG1Point::alloc_element(&mut cs, &point_of(&a));
    let b_alloc = AllocatedG1Point::alloc_element(&mut cs, &point_of(&b));
    let c_alloc = AllocatedG1Point::alloc_element(&mut cs, &point_of(&c));
    let res_alloc = a_alloc.sub(&mut cs, &b_alloc);
    assert!(res_alloc.is_ok());
    let res_alloc = res_alloc.unwrap();
    AllocatedG1Point::assert_is_equal(&mut cs, &res_alloc, &c_alloc);
    assert!(cs.is_satisfied());
    assert_eq!(extract(&mut cs, &res_alloc), coords(&c));
}

#[test]
fn test_random_double_and_add() {
    let mut rng = rand::thread_rng();
    let a = G1Projective::random(&mut rng);
    let b = G1Projective::random(&mut rng);
    let c = a.double() + b;
    let a = G1Affine::from(a);
    let b = G1Affine::from(b);
    let c = G1Affine::from(c);
    let mut cs = Circuit::new();
    let a_alloc = AllocatedG1Point::alloc_element(&mut cs, &point_of(&a));
    let b_alloc = AllocatedG1Point::alloc_element(&mut cs, &point_of(&b));
    let c_alloc = AllocatedG1Point::alloc_element(&mut cs, &point_of(&c));
    let res_alloc = a_alloc.double_and_add(&mut cs, &b_alloc);
    assert!(res_alloc.is_ok());
    let res_alloc = res_alloc.unwrap();
    AllocatedG1Point::assert_is_equal(&mut cs, &res_alloc, &c_alloc);
    assert!(cs.is_satisfied());
    assert_eq!(extract(&mut cs, &res_alloc), coords(&c));
}

#[test]
fn test_double_n_matches_repeated_doubling() {
    let mut rng = rand::thread_rng();
    let a = G1Projective::random(&mut rng);
    let c = a.double().double().double();
    let a = G1Affine::from(a);
    let c = G1Affine::from(c);
    let mut cs = Circuit::new();
    let a_alloc = AllocatedG1Point::alloc_element(&mut cs, &point_of(&a));
    let res_alloc = a_alloc.double_n(&mut cs, 3);
    assert!(res_alloc.is_ok());
    let res_alloc = res_alloc.unwrap();
    assert!(cs.is_satisfied());
    assert_eq!(extract(&mut cs, &res_alloc), coords(&c));
}

#[test]
fn test_triple_matches_add_after_double() {
    let mut rng = rand::thread_rng();
    let a = G1Projective::random(&mut rng);
    let a = G1Affine::from(a);
    let mut cs = Circuit::new();
    let a_alloc = AllocatedG1Point::alloc_element(&mut cs, &point_of(&a));
    let t_alloc = a_alloc.triple(&mut cs).unwrap();
    let d_alloc = a_alloc.double(&mut cs).unwrap();
    let d_red = d_alloc.reduce(&mut cs);
    let s_alloc = a_alloc.add(&mut cs, &d_red).unwrap();
    AllocatedG1Point::assert_is_equal(&mut cs, &t_alloc, &s_alloc);
    assert!(cs.is_satisfied());
    assert_eq!(extract(&mut cs, &t_alloc), extract(&mut cs, &s_alloc));
}

#[test]
fn test_double_and_add_matches_composition() {
    let mut rng = rand::thread_rng();
    let a = G1Projective::random(&mut rng);
    let b = G1Projective::random(&mut rng);
    let a = G1Affine::from(a);
    let b = G1Affine::from(b);
    let mut cs = Circuit::new();
    let a_alloc = AllocatedG1Point::alloc_element(&mut cs, &point_of(&a));
    let b_alloc = AllocatedG1Point::alloc_element(&mut cs, &point_of(&b));
    let f_alloc = a_alloc.double_and_add(&mut cs, &b_alloc).unwrap();
    let d_alloc = a_alloc.double(&mut cs).unwrap();
    let d_red = d_alloc.reduce(&mut cs);
    let s_alloc = d_red.add(&mut cs, &b_alloc).unwrap();
    AllocatedG1Point::assert_is_equal(&mut cs, &f_alloc, &s_alloc);
    assert!(cs.is_satisfied());
    assert_eq!(extract(&mut cs, &f_alloc), extract(&mut cs, &s_alloc));
}

#[test]
fn test_add_negation_reports_division_by_zero() {
    let mut rng = rand::thread_rng();
    let a = G1Projective::random(&mut rng);
    let a = G1Affine::from(a);
    let mut cs = Circuit::new();
    let a_alloc = AllocatedG1Point::alloc_element(&mut cs, &point_of(&a));
    let n_alloc = a_alloc.neg(&mut cs);
    let res = a_alloc.add(&mut cs, &n_alloc);
    assert_eq!(res.err(), Some(SynthError::DivisionByZero));
    assert!(cs.is_satisfied());
}

#[test]
fn test_phi_matches_beta_scaling() {
    let beta = BigUint::parse_bytes(
        b"5f19672fdf76ce51ba69c6076a0f77eaddb3a93be6f89688de17d813620a00022e01fffffffefffe",
        16,
    )
    .unwrap();
    let p = BigUint::parse_bytes(
        b"1a0111ea397fe69a4b1ba7b6434bacd764774b84f38512bf6730d2a0f6b0f6241eabfffeb153ffffb9feffffffffaaab",
        16,
    )
    .unwrap();
    let mut rng = rand::thread_rng();
    let a = G1Projective::random(&mut rng);
    let a = G1Affine::from(a);
    let (ax, ay) = coords(&a);
    let mut cs = Circuit::new();
    let a_alloc = AllocatedG1Point::alloc_element(&mut cs, &point_of(&a));
    let res = a_alloc.phi(&mut cs);
    let (rx, ry) = extract(&mut cs, &res);
    assert_eq!(rx, (&ax * &beta) % &p);
    assert_eq!(ry, ay);
    assert!(cs.is_satisfied());
}

#[test]
fn test_g1_roundtrip() {
    let mut rng = rand::thread_rng();
    let a = G1Projective::random(&mut rng);
    let a = G1Affine::from(a);
    let mut cs = Circuit::new();
    let a_alloc = AllocatedG1Point::alloc_element(&mut cs, &point_of(&a));
    assert_eq!(extract(&mut cs, &a_alloc), coords(&a));
}

#[test]
fn test_g1_constraint_counts_depend_only_on_shape() {
    let mut rng = rand::thread_rng();
    let mut counts: Vec<(u64, u64, u64, u64)> = Vec::new();
    for _ in 0..2 {
        let a = G1Affine::from(G1Projective::random(&mut rng));
        let b = G1Affine::from(G1Projective::random(&mut rng));
        let mut cs = Circuit::new();
        let a_alloc = AllocatedG1Point::alloc_element(&mut cs, &point_of(&a));
        let b_alloc = AllocatedG1Point::alloc_element(&mut cs, &point_of(&b));
        let base = cs.num_constraints();
        let _s = a_alloc.add(&mut cs, &b_alloc).unwrap();
        let after_add = cs.num_constraints();
        let _d = a_alloc.double(&mut cs).unwrap();
        let after_double = cs.num_constraints();
        let _t = a_alloc.triple(&mut cs).unwrap();
        let after_triple = cs.num_constraints();
        counts.push((
            base,
            after_add - base,
            after_double - after_add,
            after_triple - after_double,
        ));
    }
    assert_eq!(counts[0], counts[1]);
}
