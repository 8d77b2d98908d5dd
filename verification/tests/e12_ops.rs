use bls381_gadgets::circuit::{Circuit, SynthError};
use bls381_gadgets::fields::fp::Fp;
use bls381_gadgets::fields::e2::{AllocatedE2Element, Fp2};
use bls381_gadgets::fields::e6::Fp6;
use bls381_gadgets::fields::e12::{AllocatedE12Element, Fp12};
use num_bigint::BigUint;
use rand::RngCore;

fn modulus() -> BigUint {
    BigUint::parse_bytes(
        b"1a0111ea397fe69a4b1ba7b6434bacd764774b84f38512bf6730d2a0f6b0f6241eabfffeb153ffffb9feffffffffaaab",
        16,
    )
    .unwrap()
}

fn rand_res(rng: &mut impl RngCore) -> BigUint {
    let mut bytes = [0u8; 64];
    rng.fill_bytes(&mut bytes);
    BigUint::from_bytes_le(&bytes) % modulus()
}

fn fp_of(n: &BigUint) -> Fp {
    Fp::from_digits(&n.to_u32_digits())
}

fn big_of(f: &Fp) -> BigUint {
    BigUint::new(f.to_digits())
}

type B2 = (BigUint, BigUint);
type B6 = (B2, B2, B2);
type B12 = (B6, B6);

fn addm(a: &BigUint, b: &BigUint) -> BigUint {
    (a + b) % modulus()
}

fn subm(a: &BigUint, b: &BigUint) -> BigUint {
    (a + modulus() - (b % modulus())) % modulus()
}

fn mulm(a: &BigUint, b: &BigUint) -> BigUint {
    (a * b) % modulus()
}

fn invm(a: &BigUint) -> BigUint {
    a.modpow(&(modulus() - 2u32), &modulus())
}

fn add2(a: &B2, b: &B2) -> B2 {
    (addm(&a.0, &b.0), addm(&a.1, &b.1))
}

fn sub2(a: &B2, b: &B2) -> B2 {
    (subm(&a.0, &b.0), subm(&a.1, &b.1))
}

fn mul2(a: &B2, b: &B2) -> B2 {
    (
        subm(&mulm(&a.0, &b.0), &mulm(&a.1, &b.1)),
        addm(&mulm(&a.0, &b.1), &mulm(&a.1, &b.0)),
    )
}

fn nr2(a: &B2) -> B2 {
    (subm(&a.0, &a.1), addm(&a.0, &a.1))
}

fn inv2(a: &B2) -> B2 {
    let norm = addm(&mulm(&a.0, &a.0), &mulm(&a.1, &a.1));
    let ni = invm(&norm);
    (mulm(&a.0, &ni), mulm(&subm(&BigUint::ZERO, &a.1), &ni))
}

fn zero2() -> B2 {
    (BigUint::ZERO, BigUint::ZERO)
}

fn one2() -> B2 {
    (BigUint::from(1u32), BigUint::ZERO)
}

fn add6(a: &B6, b: &B6) -> B6 {
    (add2(&a.0, &b.0), add2(&a.1, &b.1), add2(&a.2, &b.2))
}

fn sub6(a: &B6, b: &B6) -> B6 {
    (sub2(&a.0, &b.0), sub2(&a.1, &b.1), sub2(&a.2, &b.2))
}

fn mul6(a: &B6, b: &B6) -> B6 {
    (
        add2(&mul2(&a.0, &b.0), &nr2(&add2(&mul2(&a.1, &b.2), &mul2(&a.2, &b.1)))),
        add2(&add2(&mul2(&a.0, &b.1), &mul2(&a.1, &b.0)), &nr2(&mul2(&a.2, &b.2))),
        add2(&add2(&mul2(&a.0, &b.2), &mul2(&a.2, &b.0)), &mul2(&a.1, &b.1)),
    )
}

fn nr6(a: &B6) -> B6 {
    (nr2(&a.2), a.0.clone(), a.1.clone())
}

fn inv6(a: &B6) -> B6 {
    let t0 = sub2(&mul2(&a.0, &a.0), &nr2(&mul2(&a.1, &a.2)));
    let t1 = sub2(&nr2(&mul2(&a.2, &a.2)), &mul2(&a.0, &a.1));
    let t2 = sub2(&mul2(&a.1, &a.1), &mul2(&a.0, &a.2));
    let d = add2(&mul2(&a.0, &t0), &nr2(&add2(&mul2(&a.2, &t1), &mul2(&a.1, &t2))));
    let di = inv2(&d);
    (mul2(&t0, &di), mul2(&t1, &di), mul2(&t2, &di))
}

fn zero6() -> B6 {
    (zero2(), zero2(), zero2())
}

fn add12(a: &B12, b: &B12) -> B12 {
    (add6(&a.0, &b.0), add6(&a.1, &b.1))
}

fn sub12(a: &B12, b: &B12) -> B12 {
    (sub6(&a.0, &b.0), sub6(&a.1, &b.1))
}

fn mul12(a: &B12, b: &B12) -> B12 {
    (
        add6(&mul6(&a.0, &b.0), &nr6(&mul6(&a.1, &b.1))),
        add6(&mul6(&a.0, &b.1), &mul6(&a.1, &b.0)),
    )
}

fn conj12(a: &B12) -> B12 {
    (a.0.clone(), sub6(&zero6(), &a.1))
}

fn inv12(a: &B12) -> B12 {
    let d = sub6(&mul6(&a.0, &a.0), &nr6(&mul6(&a.1, &a.1)));
    let di = inv6(&d);
    (mul6(&a.0, &di), sub6(&zero6(), &mul6(&a.1, &di)))
}

fn rand2(rng: &mut impl RngCore) -> B2 {
    (rand_res(rng), rand_res(rng))
}

fn rand12(rng: &mut impl RngCore) -> B12 {
    (
        (rand2(rng), rand2(rng), rand2(rng)),
        (rand2(rng), rand2(rng), rand2(rng)),
    )
}

fn fp2_of(a: &B2) -> Fp2 {
    Fp2 { c0: fp_of(&a.0), c1: fp_of(&a.1) }
}

fn fp12_of(a: &B12) -> Fp12 {
    Fp12 {
        c0: Fp6 { b0: fp2_of(&a.0.0), b1: fp2_of(&a.0.1), b2: fp2_of(&a.0.2) },
        c1: Fp6 { b0: fp2_of(&a.1.0), b1: fp2_of(&a.1.1), b2: fp2_of(&a.1.2) },
    }
}

fn big12_of(v: &Fp12) -> B12 {
    (
        (
            (big_of(&v.c0.b0.c0), big_of(&v.c0.b0.c1)),
            (big_of(&v.c0.b1.c0), big_of(&v.c0.b1.c1)),
            (big_of(&v.c0.b2.c0), big_of(&v.c0.b2.c1)),
        ),
        (
            (big_of(&v.c1.b0.c0), big_of(&v.c1.b0.c1)),
            (big_of(&v.c1.b1.c0), big_of(&v.c1.b1.c1)),
            (big_of(&v.c1.b2.c0), big_of(&v.c1.b2.c1)),
        ),
    )
}

fn extract(cs: &mut Circuit, e: &AllocatedE12Element) -> B12 {
    let r = e.reduce(cs);
    big12_of(&r.to_value())
}

#[test]
fn e12_test_random_add() {
    let mut rng = rand::thread_rng();
    let a = rand12(&mut rng);
    let b = rand12(&mut rng);
    let c = add12(&a, &b);
    let mut cs = Circuit::new();
    let a_alloc = AllocatedE12Element::alloc_element(&mut cs, &fp12_of(&a));
    let b_alloc = AllocatedE12Element::alloc_element(&mut cs, &fp12_of(&b));
    let c_alloc = AllocatedE12Element::alloc_element(&mut cs, &fp12_of(&c));
    let res_alloc = a_alloc.add(&mut cs, &b_alloc);
    AllocatedE12Element::assert_is_equal(&mut cs, &res_alloc, &c_alloc);
    assert!(cs.is_satisfied());
    assert_eq!(extract(&mut cs, &res_alloc), c);
}

#[test]
fn e12_test_random_sub() {
    let mut rng = rand::thread_rng();
    let a = rand12(&mut rng);
    let b = rand12(&mut rng);
    let c = sub12(&a, &b);
    let mut cs = Circuit::new();
    let a_alloc = AllocatedE12Element::alloc_element(&mut cs, &fp12_of(&a));
    let b_alloc = AllocatedE12Element::alloc_element(&mut cs, &fp12_of(&b));
    let c_alloc = AllocatedE12Element::alloc_element(&mut cs, &fp12_of(&c));
    let res_alloc = a_alloc.sub(&mut cs, &b_alloc);
    AllocatedE12Element::assert_is_equal(&mut cs, &res_alloc, &c_alloc);
    assert!(cs.is_satisfied());
    assert_eq!(extract(&mut cs, &res_alloc), c);
}

#[test]
fn test_random_mul() {
    let mut rng = rand::thread_rng();
    let a = rand12(&mut rng);
    let b = rand12(&mut rng);
    let c = mul12(&a, &b);
    let mut cs = Circuit::new();
    let a_alloc = AllocatedE12Element::alloc_element(&mut cs, &fp12_of(&a));
    let b_alloc = AllocatedE12Element::alloc_element(&mut cs, &fp12_of(&b));
    let c_alloc = AllocatedE12Element::alloc_element(&mut cs, &fp12_of(&c));
    let res_alloc = a_alloc.mul(&mut cs, &b_alloc);
    AllocatedE12Element::assert_is_equal(&mut cs, &res_alloc, &c_alloc);
    assert!(cs.is_satisfied());
    assert_eq!(extract(&mut cs, &res_alloc), c);
}

#[test]
fn test_random_square() {
    let mut rng = rand::thread_rng();
    let a = rand12(&mut rng);
    let c = mul12(&a, &a);
    let mut cs = Circuit::new();
    let a_alloc = AllocatedE12Element::alloc_element(&mut cs, &fp12_of(&a));
    let c_alloc = AllocatedE12Element::alloc_element(&mut cs, &fp12_of(&c));
    let res_alloc = a_alloc.square(&mut cs);
    AllocatedE12Element::assert_is_equal(&mut cs, &res_alloc, &c_alloc);
    assert!(cs.is_satisfied());
    assert_eq!(extract(&mut cs, &res_alloc), c);
}

#[test]
fn test_random_div() {
    let mut rng = rand::thread_rng();
    let a = rand12(&mut rng);
    let b = rand12(&mut rng);
    let c = mul12(&a, &inv12(&b));
    let mut cs = Circuit::new();
    let a_alloc = AllocatedE12Element::alloc_element(&mut cs, &fp12_of(&a));
    let b_alloc = AllocatedE12Element::alloc_element(&mut cs, &fp12_of(&b));
    let c_alloc = AllocatedE12Element::alloc_element(&mut cs, &fp12_of(&c));
    let res_alloc = a_alloc.div_unchecked(&mut cs, &b_alloc);
    assert!(res_alloc.is_ok());
    let res_alloc = res_alloc.unwrap();
    AllocatedE12Element::assert_is_equal(&mut cs, &res_alloc, &c_alloc);
    assert!(cs.is_satisfied());
    assert_eq!(extract(&mut cs, &res_alloc), c);
}

#[test]
fn test_random_mul_by_014() {
    let mut rng = rand::thread_rng();
    let a = rand12(&mut rng);
    let c0 = rand2(&mut rng);
    let c1 = rand2(&mut rng);
    let b: B12 = ((c0.clone(), c1.clone(), zero2()), (zero2(), one2(), zero2()));
    let c = mul12(&a, &b);
    let mut cs = Circuit::new();
    let a_alloc = AllocatedE12Element::alloc_element(&mut cs, &fp12_of(&a));
    let c0_alloc = AllocatedE2Element::alloc_element(&mut cs, &fp2_of(&c0));
    let c1_alloc = AllocatedE2Element::alloc_element(&mut cs, &fp2_of(&c1));
    let c_alloc = AllocatedE12Element::alloc_element(&mut cs, &fp12_of(&c));
    let res_alloc = a_alloc.mul_by_014(&mut cs, &c0_alloc, &c1_alloc);
    AllocatedE12Element::assert_is_equal(&mut cs, &res_alloc, &c_alloc);
    assert!(cs.is_satisfied());
    assert_eq!(extract(&mut cs, &res_alloc), c);
}

#[test]
fn test_random_mul_014_by_014() {
    let mut rng = rand::thread_rng();
    let c0 = rand2(&mut rng);
    let c1 = rand2(&mut rng);
    let d0 = rand2(&mut rng);
    let d1 = rand2(&mut rng);
    let a: B12 = ((c0.clone(), c1.clone(), zero2()), (zero2(), one2(), zero2()));
    let b: B12 = ((d0.clone(), d1.clone(), zero2()), (zero2(), one2(), zero2()));
    let c = mul12(&a, &b);
    let mut cs = Circuit::new();
    let c0_alloc = AllocatedE2Element::alloc_element(&mut cs, &fp2_of(&c0));
    let c1_alloc = AllocatedE2Element::alloc_element(&mut cs, &fp2_of(&c1));
    let d0_alloc = AllocatedE2Element::alloc_element(&mut cs, &fp2_of(&d0));
    let d1_alloc = AllocatedE2Element::alloc_element(&mut cs, &fp2_of(&d1));
    let c_alloc = AllocatedE12Element::alloc_element(&mut cs, &fp12_of(&c));
    let res_alloc = AllocatedE12Element::mul_014_by_014(
        &mut cs, &c0_alloc, &c1_alloc, &d0_alloc, &d1_alloc,
    );
    AllocatedE12Element::assert_is_equal(&mut cs, &res_alloc, &c_alloc);
    assert!(cs.is_satisfied());
    assert_eq!(extract(&mut cs, &res_alloc), c);
}

#[test]
fn test_random_mul_by_01245() {
    let mut rng = rand::thread_rng();
    let a = rand12(&mut rng);
    let c00 = rand2(&mut rng);
    let c01 = rand2(&mut rng);
    let c02 = rand2(&mut rng);
    let c11 = rand2(&mut rng);
    let c12 = rand2(&mut rng);
    let b: B12 = (
        (c00.clone(), c01.clone(), c02.clone()),
        (zero2(), c11.clone(), c12.clone()),
    );
    let c = mul12(&a, &b);
    let mut cs = Circuit::new();
    let a_alloc = AllocatedE12Element::alloc_element(&mut cs, &fp12_of(&a));
    let c00_alloc = AllocatedE2Element::alloc_element(&mut cs, &fp2_of(&c00));
    let c01_alloc = AllocatedE2Element::alloc_element(&mut cs, &fp2_of(&c01));
    let c02_alloc = AllocatedE2Element::alloc_element(&mut cs, &fp2_of(&c02));
    let c11_alloc = AllocatedE2Element::alloc_element(&mut cs, &fp2_of(&c11));
    let c12_alloc = AllocatedE2Element::alloc_element(&mut cs, &fp2_of(&c12));
    let c_alloc = AllocatedE12Element::alloc_element(&mut cs, &fp12_of(&c));
    let res_alloc = a_alloc.mul_by_01245(
        &mut cs, &c00_alloc, &c01_alloc, &c02_alloc, &c11_alloc, &c12_alloc,
    );
    AllocatedE12Element::assert_is_equal(&mut cs, &res_alloc, &c_alloc);
    assert!(cs.is_satisfied());
    assert_eq!(extract(&mut cs, &res_alloc), c);
}

#[test]
fn test_random_conjugate() {
    let mut rng = rand::thread_rng();
    let a = rand12(&mut rng);
    let c = conj12(&a);
    let mut cs = Circuit::new();
    let a_alloc = AllocatedE12Element::alloc_element(&mut cs, &fp12_of(&a));
    let c_alloc = AllocatedE12Element::alloc_element(&mut cs, &fp12_of(&c));
    let res_alloc = a_alloc.conjugate(&mut cs);
    AllocatedE12Element::assert_is_equal(&mut cs, &res_alloc, &c_alloc);
    assert!(cs.is_satisfied());
    assert_eq!(extract(&mut cs, &res_alloc), c);
}

#[test]
fn test_random_inverse() {
    let mut rng = rand::thread_rng();
    let a = rand12(&mut rng);
    let c = inv12(&a);
    let mut cs = Circuit::new();
    let a_alloc = AllocatedE12Element::alloc_element(&mut cs, &fp12_of(&a));
    let c_alloc = AllocatedE12Element::alloc_element(&mut cs, &fp12_of(&c));
    let res_alloc = a_alloc.inverse(&mut cs);
    assert!(res_alloc.is_ok());
    let res_alloc = res_alloc.unwrap();
    AllocatedE12Element::assert_is_equal(&mut cs, &res_alloc, &c_alloc);
    assert!(cs.is_satisfied());
    assert_eq!(extract(&mut cs, &res_alloc), c);
}

#[test]
fn test_random_alloc_is_zero() {
    let mut rng = rand::thread_rng();
    let a = rand12(&mut rng);
    let b = rand12(&mut rng);
    let c = b.clone();
    let mut cs = Circuit::new();
    let a_alloc = AllocatedE12Element::alloc_element(&mut cs, &fp12_of(&a));
    let a2_alloc = AllocatedE12Element::alloc_element(&mut cs, &fp12_of(&a));
    let b_alloc = AllocatedE12Element::alloc_element(&mut cs, &fp12_of(&b));
    let res_alloc = a_alloc.sub(&mut cs, &a2_alloc);
    let c_alloc = AllocatedE12Element::alloc_element(&mut cs, &fp12_of(&c));
    let z_alloc = AllocatedE12Element::alloc_element(&mut cs, &Fp12::zero());
    let z2_alloc = z_alloc.square(&mut cs);
    AllocatedE12Element::assert_is_equal(&mut cs, &res_alloc, &z2_alloc);
    let zbit = res_alloc.alloc_is_zero(&mut cs);
    assert!(zbit);
    let res_red = res_alloc.reduce(&mut cs);
    let cond_alloc = AllocatedE12Element::conditionally_select(&mut cs, &a_alloc, &b_alloc, zbit);
    AllocatedE12Element::assert_is_equal(&mut cs, &cond_alloc, &a_alloc);
    assert!(cs.is_satisfied());
    let _ = res_red;
}

#[test]
fn test_div_by_zero_reports_error() {
    let mut rng = rand::thread_rng();
    let a = rand12(&mut rng);
    let mut cs = Circuit::new();
    let a_alloc = AllocatedE12Element::alloc_element(&mut cs, &fp12_of(&a));
    let z_alloc = AllocatedE12Element::alloc_element(&mut cs, &Fp12::zero());
    let div = a_alloc.div_unchecked(&mut cs, &z_alloc);
    assert_eq!(div.err(), Some(SynthError::DivisionByZero));
    let inv = z_alloc.inverse(&mut cs);
    assert_eq!(inv.err(), Some(SynthError::DivisionByZero));
    assert!(cs.is_satisfied());
}

#[test]
fn test_mul_by_one_is_identity() {
    let mut rng = rand::thread_rng();
    let a = rand12(&mut rng);
    let mut cs = Circuit::new();
    let a_alloc = AllocatedE12Element::alloc_element(&mut cs, &fp12_of(&a));
    let one = AllocatedE12Element::one();
    let res = a_alloc.mul(&mut cs, &one);
    assert_eq!(extract(&mut cs, &res), a);
    assert!(cs.is_satisfied());
}

#[test]
fn test_select_constraint_count_is_branch_independent() {
    let mut rng = rand::thread_rng();
    let a = rand12(&mut rng);
    let b = rand12(&mut rng);
    let mut cs_t = Circuit::new();
    let a_t = AllocatedE12Element::alloc_element(&mut cs_t, &fp12_of(&a));
    let b_t = AllocatedE12Element::alloc_element(&mut cs_t, &fp12_of(&b));
    let base_t = cs_t.num_constraints();
    let r_t = AllocatedE12Element::conditionally_select(&mut cs_t, &a_t, &b_t, true);
    let cost_t = cs_t.num_constraints() - base_t;
    let mut cs_f = Circuit::new();
    let a_f = AllocatedE12Element::alloc_element(&mut cs_f, &fp12_of(&a));
    let b_f = AllocatedE12Element::alloc_element(&mut cs_f, &fp12_of(&b));
    let base_f = cs_f.num_constraints();
    let r_f = AllocatedE12Element::conditionally_select(&mut cs_f, &a_f, &b_f, false);
    let cost_f = cs_f.num_constraints() - base_f;
    assert_eq!(cost_t, cost_f);
    assert_eq!(extract(&mut cs_t, &r_t), a);
    assert_eq!(extract(&mut cs_f, &r_f), b);
}

#[test]
fn test_allocate_extract_roundtrip() {
    let mut rng = rand::thread_rng();
    let a = rand12(&mut rng);
    let mut cs = Circuit::new();
    let a_alloc = AllocatedE12Element::alloc_element(&mut cs, &fp12_of(&a));
    assert_eq!(big12_of(&a_alloc.to_value()), a);
}

#[test]
fn test_reduce_of_unreduced_digits() {
    // digits holding the prime plus one must reduce to one
    let p_plus_one = modulus() + 1u32;
    let f = Fp::from_digits(&p_plus_one.to_u32_digits());
    assert_eq!(BigUint::new(f.to_digits()), BigUint::from(1u32));
}

#[test]
fn test_constraint_counts_depend_only_on_shape() {
    // the emitted constraint count is a function of the operand shapes, the
    // regression oracle for count stability
    let mut rng = rand::thread_rng();
    let mut counts: Vec<(u64, u64, u64)> = Vec::new();
    for _ in 0..2 {
        let a = rand12(&mut rng);
        let b = rand12(&mut rng);
        let mut cs = Circuit::new();
        let a_alloc = AllocatedE12Element::alloc_element(&mut cs, &fp12_of(&a));
        let b_alloc = AllocatedE12Element::alloc_element(&mut cs, &fp12_of(&b));
        let base = cs.num_constraints();
        let _m = a_alloc.mul(&mut cs, &b_alloc);
        let after_mul = cs.num_constraints();
        let _s = a_alloc.square(&mut cs);
        let after_square = cs.num_constraints();
        counts.push((base, after_mul - base, after_square - after_mul));
    }
    assert_eq!(counts[0], counts[1]);
}
