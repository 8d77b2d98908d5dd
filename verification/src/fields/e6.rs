//! The cubic extension gadget: a triple `b0 + b1*v + b2*v^2` of quadratic
//! elements with `v^3 = 1 + u`.  Multiplication uses the three-term
//! Karatsuba form, six quadratic multiplications instead of nine, and the
//! sparse variants skip the statically vanishing coefficients.

use vstd::prelude::*;
use crate::arith::{
    fpm, e2_add, e2_sub, e2_neg, e2_mul, e2_mul_nr, e2_zero, e2_one, e2_cong, e6_add, e6_sub,
    e6_adj0, e6_adj1, e6_adj2, e6_det, e6_invertible, lemma_e2_invertible_cong,
    lemma_e2_cong_mul,
    e6_neg, e6_mul, e6_mul_nr, e6_zero, e6_one, e6_cong, E6, imax, lemma_e2_cong_sub,
    lemma_e2_cong_add, lemma_e2_cong_mul_nr, lemma_e2_mul_cross, lemma_e2_mul_dist_left,
    lemma_e2_mul_zero,
};
use crate::circuit::{Circuit, SynthError, count_add};
use crate::fields::fp::Fp;
use crate::fields::e2::{Fp2, AllocatedE2Element, fp2_inv_witness};

verus! {

/// A plaintext cubic-extension value.
pub struct Fp6 {
    pub b0: Fp2,
    pub b1: Fp2,
    pub b2: Fp2,
}

impl Fp6 {
    pub open spec fn wf(&self) -> bool {
        self.b0.wf() && self.b1.wf() && self.b2.wf()
    }

    pub open spec fn value(&self) -> E6 {
        (self.b0.value(), self.b1.value(), self.b2.value())
    }

    pub fn zero() -> (r: Self)
        ensures
            r.wf(),
            r.value() == e6_zero(),
    {
        Fp6 { b0: Fp2::zero(), b1: Fp2::zero(), b2: Fp2::zero() }
    }

    pub fn one() -> (r: Self)
        ensures
            r.wf(),
            r.value() == e6_one(),
    {
        Fp6 { b0: Fp2::one(), b1: Fp2::zero(), b2: Fp2::zero() }
    }
}

/// A cubic-extension element allocated in the circuit.
pub struct AllocatedE6Element {
    pub b0: AllocatedE2Element,
    pub b1: AllocatedE2Element,
    pub b2: AllocatedE2Element,
}

impl AllocatedE6Element {
    pub open spec fn wf(&self) -> bool {
        self.b0.wf() && self.b1.wf() && self.b2.wf()
    }

    pub open spec fn reduced(&self) -> bool {
        self.b0.reduced() && self.b1.reduced() && self.b2.reduced()
    }

    pub open spec fn value(&self) -> E6 {
        (self.b0.value(), self.b1.value(), self.b2.value())
    }

    pub open spec fn max_width(&self) -> int {
        imax(imax(self.b0.max_width(), self.b1.max_width()), self.b2.max_width())
    }

    pub open spec fn max_len(&self) -> int {
        imax(imax(self.b0.max_len(), self.b1.max_len()), self.b2.max_len())
    }

    pub open spec fn same_shape(&self, other: &Self) -> bool {
        self.b0.same_shape(&other.b0) && self.b1.same_shape(&other.b1) && self.b2.same_shape(
            &other.b2,
        )
    }

    pub fn zero() -> (r: Self)
        ensures
            r.reduced(),
            r.wf(),
            r.value() == e6_zero(),
    {
        AllocatedE6Element {
            b0: AllocatedE2Element::zero(),
            b1: AllocatedE2Element::zero(),
            b2: AllocatedE2Element::zero(),
        }
    }

    pub fn one() -> (r: Self)
        ensures
            r.reduced(),
            r.wf(),
            r.value() == e6_one(),
    {
        AllocatedE6Element {
            b0: AllocatedE2Element::one(),
            b1: AllocatedE2Element::zero(),
            b2: AllocatedE2Element::zero(),
        }
    }

    pub fn alloc_element(cs: &mut Circuit, value: &Fp6) -> (r: Self)
        requires
            value.wf(),
        ensures
            r.reduced(),
            r.wf(),
            r.value() == value.value(),
            final(cs).constraints == count_add(
                count_add(count_add(old(cs).constraints, 24), 24),
                24,
            ),
            final(cs).satisfied == old(cs).satisfied,
    {
        let b0 = AllocatedE2Element::alloc_element(cs, &value.b0);
        let b1 = AllocatedE2Element::alloc_element(cs, &value.b1);
        let b2 = AllocatedE2Element::alloc_element(cs, &value.b2);
        AllocatedE6Element { b0, b1, b2 }
    }

    pub fn to_value(&self) -> (r: Fp6)
        requires
            self.reduced(),
        ensures
            r.wf(),
            r.value() == self.value(),
    {
        Fp6 { b0: self.b0.to_value(), b1: self.b1.to_value(), b2: self.b2.to_value() }
    }

    pub fn assert_is_equal(cs: &mut Circuit, a: &Self, b: &Self)
        requires
            a.wf(),
            b.wf(),
        ensures
            final(cs).satisfied == (old(cs).satisfied && e6_cong(a.value(), b.value())),
    {
        AllocatedE2Element::assert_is_equal(cs, &a.b0, &b.b0);
        AllocatedE2Element::assert_is_equal(cs, &a.b1, &b.b1);
        AllocatedE2Element::assert_is_equal(cs, &a.b2, &b.b2);
    }

    pub fn reduce(&self, cs: &mut Circuit) -> (r: Self)
        requires
            self.wf(),
        ensures
            r.reduced(),
            r.wf(),
            e6_cong(r.value(), self.value()),
            final(cs).satisfied == old(cs).satisfied,
    {
        let b0 = self.b0.reduce(cs);
        let b1 = self.b1.reduce(cs);
        let b2 = self.b2.reduce(cs);
        AllocatedE6Element { b0, b1, b2 }
    }

    pub fn assert_equality_to_constant(&self, cs: &mut Circuit, constant: &Self)
        requires
            self.reduced(),
            constant.reduced(),
        ensures
            final(cs).satisfied == (old(cs).satisfied && e6_cong(self.value(), constant.value())),
    {
        self.b0.assert_equality_to_constant(cs, &constant.b0);
        self.b1.assert_equality_to_constant(cs, &constant.b1);
        self.b2.assert_equality_to_constant(cs, &constant.b2);
    }

    /// A boolean set exactly when every coordinate's residue is zero.
    pub fn alloc_is_zero(&self, cs: &mut Circuit) -> (r: bool)
        requires
            self.wf(),
        ensures
            r == (fpm(self.value().0.0) == 0 && fpm(self.value().0.1) == 0 && fpm(self.value().1.0)
                == 0 && fpm(self.value().1.1) == 0 && fpm(self.value().2.0) == 0 && fpm(
                self.value().2.1,
            ) == 0),
            final(cs).satisfied == old(cs).satisfied,
    {
        let z0 = self.b0.alloc_is_zero(cs);
        let z1 = self.b1.alloc_is_zero(cs);
        let z2 = self.b2.alloc_is_zero(cs);
        cs.bump(2);
        z0 && z1 && z2
    }

    pub fn add(&self, cs: &mut Circuit, value: &Self) -> (r: Self)
        requires
            self.wf(),
            value.wf(),
            self.max_width() <= 124,
            value.max_width() <= 124,
        ensures
            r.wf(),
            r.value() == e6_add(self.value(), value.value()),
            r.max_width() <= imax(self.max_width(), value.max_width()) + 1,
            r.max_len() <= imax(self.max_len(), value.max_len()),
            final(cs).constraints == old(cs).constraints,
            final(cs).satisfied == old(cs).satisfied,
    {
        let b0 = self.b0.add(cs, &value.b0);
        let b1 = self.b1.add(cs, &value.b1);
        let b2 = self.b2.add(cs, &value.b2);
        AllocatedE6Element { b0, b1, b2 }
    }

    pub fn double(&self, cs: &mut Circuit) -> (r: Self)
        requires
            self.wf(),
            self.max_width() <= 124,
        ensures
            r.wf(),
            r.value() == e6_add(self.value(), self.value()),
            r.max_width() <= self.max_width() + 1,
            r.max_len() <= self.max_len(),
            final(cs).constraints == old(cs).constraints,
            final(cs).satisfied == old(cs).satisfied,
    {
        self.add(cs, self)
    }

    pub fn sub(&self, cs: &mut Circuit, value: &Self) -> (r: Self)
        requires
            self.wf(),
            value.wf(),
            self.max_width() <= 124,
            value.max_width() <= 122,
        ensures
            r.wf(),
            e6_cong(r.value(), e6_sub(self.value(), value.value())),
            r.max_width() <= imax(self.max_width(), value.max_width() + 1) + 1,
            r.max_len() <= imax(imax(self.max_len(), value.max_len()), 12),
            final(cs).constraints == old(cs).constraints,
            final(cs).satisfied == old(cs).satisfied,
    {
        let b0 = self.b0.sub(cs, &value.b0);
        let b1 = self.b1.sub(cs, &value.b1);
        let b2 = self.b2.sub(cs, &value.b2);
        AllocatedE6Element { b0, b1, b2 }
    }

    pub fn neg(&self, cs: &mut Circuit) -> (r: Self)
        requires
            self.wf(),
            self.max_width() <= 122,
        ensures
            r.wf(),
            e6_cong(r.value(), e6_neg(self.value())),
            r.max_width() <= self.max_width() + 2,
            r.max_len() <= imax(self.max_len(), 12),
            final(cs).constraints == old(cs).constraints,
            final(cs).satisfied == old(cs).satisfied,
    {
        let b0 = self.b0.neg(cs);
        let b1 = self.b1.neg(cs);
        let b2 = self.b2.neg(cs);
        AllocatedE6Element { b0, b1, b2 }
    }

    /// Multiplication by `v`, the image of the sextic nonresidue: rotate the
    /// coefficients and fold the top one through `1 + u`.
    pub fn mul_by_nonresidue(&self, cs: &mut Circuit) -> (r: Self)
        requires
            self.wf(),
            self.max_width() <= 122,
        ensures
            r.wf(),
            e6_cong(r.value(), e6_mul_nr(self.value())),
            r.max_width() <= self.max_width() + 2,
            r.max_len() <= imax(self.max_len(), 12),
            final(cs).constraints == old(cs).constraints,
            final(cs).satisfied == old(cs).satisfied,
    {
        let b0 = self.b2.mul_by_nonresidue(cs);
        AllocatedE6Element { b0, b1: self.b0.duplicate(), b2: self.b1.duplicate() }
    }

    /// Three-term Karatsuba multiplication: six quadratic multiplications.
    #[verifier::rlimit(100)]
    pub fn mul(&self, cs: &mut Circuit, value: &Self) -> (r: Self)
        requires
            self.wf(),
            value.wf(),
            self.max_width() + value.max_width() <= 90,
            self.max_len() <= 12,
            value.max_len() <= 12,
        ensures
            r.wf(),
            e6_cong(r.value(), e6_mul(self.value(), value.value())),
            r.max_width() <= self.max_width() + value.max_width() + 20,
            r.max_len() <= 33,
            final(cs).satisfied == old(cs).satisfied,
    {
        let ghost av = self.value();
        let ghost bv = value.value();
        let t0 = self.b0.mul(cs, &value.b0);
        let t1 = self.b1.mul(cs, &value.b1);
        let t2 = self.b2.mul(cs, &value.b2);
        // d0 = t0 + nr(b1 c2 + b2 c1)
        let x12 = AllocatedE2Element::cross_term(cs, &self.b1, &self.b2, &value.b1, &value.b2, &t1, &t2);
        let n0 = x12.mul_by_nonresidue(cs);
        let d0 = n0.add(cs, &t0);
        // d1 = b0 c1 + b1 c0 + nr(t2)
        let x01 = AllocatedE2Element::cross_term(cs, &self.b0, &self.b1, &value.b0, &value.b1, &t0, &t1);
        let n1 = t2.mul_by_nonresidue(cs);
        let d1 = x01.add(cs, &n1);
        // d2 = b0 c2 + b2 c0 + t1
        let x02 = AllocatedE2Element::cross_term(cs, &self.b0, &self.b2, &value.b0, &value.b2, &t0, &t2);
        let d2 = x02.add(cs, &t1);
        proof {
            lemma_e2_cong_mul_nr(x12.value(), e2_add(e2_mul(av.1, bv.2), e2_mul(av.2, bv.1)));
            lemma_e2_cong_add(
                n0.value(),
                e2_mul_nr(e2_add(e2_mul(av.1, bv.2), e2_mul(av.2, bv.1))),
                t0.value(),
                e2_mul(av.0, bv.0),
            );
            lemma_e2_cong_mul_nr(t2.value(), e2_mul(av.2, bv.2));
            lemma_e2_cong_add(
                x01.value(),
                e2_add(e2_mul(av.0, bv.1), e2_mul(av.1, bv.0)),
                n1.value(),
                e2_mul_nr(e2_mul(av.2, bv.2)),
            );
            lemma_e2_cong_add(
                x02.value(),
                e2_add(e2_mul(av.0, bv.2), e2_mul(av.2, bv.0)),
                t1.value(),
                e2_mul(av.1, bv.1),
            );
        }
        AllocatedE6Element { b0: d0, b1: d1, b2: d2 }
    }

    /// Multiplication by a sparse cubic value `c0 + c1*v` with vanishing top
    /// coefficient: five quadratic multiplications.
    #[verifier::rlimit(100)]
    pub fn mul_by_01(
        &self,
        cs: &mut Circuit,
        c0: &AllocatedE2Element,
        c1: &AllocatedE2Element,
    ) -> (r: Self)
        requires
            self.wf(),
            c0.wf(),
            c1.wf(),
            self.max_width() + imax(c0.max_width(), c1.max_width()) <= 90,
            self.max_len() <= 12,
            c0.max_len() <= 12,
            c1.max_len() <= 12,
        ensures
            r.wf(),
            e6_cong(r.value(), e6_mul(self.value(), (c0.value(), c1.value(), e2_zero()))),
            r.max_width() <= self.max_width() + imax(c0.max_width(), c1.max_width()) + 20,
            r.max_len() <= 33,
            final(cs).satisfied == old(cs).satisfied,
    {
        let ghost av = self.value();
        let ghost x0 = c0.value();
        let ghost x1 = c1.value();
        let a = self.b0.mul(cs, c0);
        let b = self.b1.mul(cs, c1);
        // d0 = a + nr((b1+b2) c1 - b)
        let s12 = self.b1.add(cs, &self.b2);
        let m0 = s12.mul(cs, c1);
        let w0 = m0.sub(cs, &b);
        let n0 = w0.mul_by_nonresidue(cs);
        let d0 = n0.add(cs, &a);
        // d1 = b0 c1 + b1 c0
        let d1 = AllocatedE2Element::cross_term(cs, &self.b0, &self.b1, c0, c1, &a, &b);
        // d2 = (b0+b2) c0 - a + b
        let s02 = self.b0.add(cs, &self.b2);
        let m2 = s02.mul(cs, c0);
        let w2 = m2.sub(cs, &a);
        let d2 = w2.add(cs, &b);
        proof {
            lemma_e2_mul_zero(av.0);
            lemma_e2_mul_zero(av.1);
            lemma_e2_mul_zero(av.2);
            // first coefficient: nr(b2 c1) + b0 c0
            lemma_e2_mul_dist_left(av.1, av.2, x1);
            lemma_e2_cong_sub(
                m0.value(),
                e2_add(e2_mul(av.1, x1), e2_mul(av.2, x1)),
                b.value(),
                e2_mul(av.1, x1),
            );
            lemma_e2_cong_mul_nr(w0.value(), e2_mul(av.2, x1));
            lemma_e2_cong_add(n0.value(), e2_mul_nr(e2_mul(av.2, x1)), a.value(), e2_mul(av.0, x0));
            // third coefficient: b2 c0 + b1 c1
            lemma_e2_mul_dist_left(av.0, av.2, x0);
            lemma_e2_cong_sub(
                m2.value(),
                e2_add(e2_mul(av.0, x0), e2_mul(av.2, x0)),
                a.value(),
                e2_mul(av.0, x0),
            );
            lemma_e2_cong_add(w2.value(), e2_mul(av.2, x0), b.value(), e2_mul(av.1, x1));
        }
        AllocatedE6Element { b0: d0, b1: d1, b2: d2 }
    }

    /// Multiplication by a sparse cubic value `c1*v + c2*v^2` with vanishing
    /// constant coefficient: five quadratic multiplications.
    #[verifier::rlimit(100)]
    pub fn mul_by_12(
        &self,
        cs: &mut Circuit,
        c1: &AllocatedE2Element,
        c2: &AllocatedE2Element,
    ) -> (r: Self)
        requires
            self.wf(),
            c1.wf(),
            c2.wf(),
            self.max_width() + imax(c1.max_width(), c2.max_width()) <= 90,
            self.max_len() <= 12,
            c1.max_len() <= 12,
            c2.max_len() <= 12,
        ensures
            r.wf(),
            e6_cong(r.value(), e6_mul(self.value(), (e2_zero(), c1.value(), c2.value()))),
            r.max_width() <= self.max_width() + imax(c1.max_width(), c2.max_width()) + 20,
            r.max_len() <= 33,
            final(cs).satisfied == old(cs).satisfied,
    {
        let ghost av = self.value();
        let ghost x1 = c1.value();
        let ghost x2 = c2.value();
        let t0 = self.b1.mul(cs, c1);
        let t1 = self.b2.mul(cs, c2);
        // d0 = nr(b1 c2 + b2 c1)
        let x12 = AllocatedE2Element::cross_term(cs, &self.b1, &self.b2, c1, c2, &t0, &t1);
        let d0 = x12.mul_by_nonresidue(cs);
        // d1 = b0 c1 + nr(t1)
        let m1 = self.b0.mul(cs, c1);
        let n1 = t1.mul_by_nonresidue(cs);
        let d1 = m1.add(cs, &n1);
        // d2 = b0 c2 + t0
        let m2 = self.b0.mul(cs, c2);
        let d2 = m2.add(cs, &t0);
        proof {
            lemma_e2_mul_zero(av.0);
            lemma_e2_mul_zero(av.1);
            lemma_e2_mul_zero(av.2);
            lemma_e2_cong_mul_nr(x12.value(), e2_add(e2_mul(av.1, x2), e2_mul(av.2, x1)));
            lemma_e2_cong_mul_nr(t1.value(), e2_mul(av.2, x2));
            lemma_e2_cong_add(
                m1.value(),
                e2_mul(av.0, x1),
                n1.value(),
                e2_mul_nr(e2_mul(av.2, x2)),
            );
            lemma_e2_cong_add(m2.value(), e2_mul(av.0, x2), t0.value(), e2_mul(av.1, x1));
        }
        AllocatedE6Element { b0: d0, b1: d1, b2: d2 }
    }

    pub fn conditionally_select(cs: &mut Circuit, z0: &Self, z1: &Self, condition: bool) -> (r:
        Self)
        requires
            z0.wf(),
            z1.wf(),
            z0.same_shape(z1),
        ensures
            r.wf(),
            condition ==> r.value() == z0.value(),
            !condition ==> r.value() == z1.value(),
            final(cs).constraints == count_add(
                count_add(
                    count_add(
                        count_add(
                            count_add(
                                count_add(old(cs).constraints, z0.b0.c0.limbs@.len() as u64),
                                z0.b0.c1.limbs@.len() as u64,
                            ),
                            z0.b1.c0.limbs@.len() as u64,
                        ),
                        z0.b1.c1.limbs@.len() as u64,
                    ),
                    z0.b2.c0.limbs@.len() as u64,
                ),
                z0.b2.c1.limbs@.len() as u64,
            ),
            final(cs).satisfied == old(cs).satisfied,
    {
        let b0 = AllocatedE2Element::conditionally_select(cs, &z0.b0, &z1.b0, condition);
        let b1 = AllocatedE2Element::conditionally_select(cs, &z0.b1, &z1.b1, condition);
        let b2 = AllocatedE2Element::conditionally_select(cs, &z0.b2, &z1.b2, condition);
        AllocatedE6Element { b0, b1, b2 }
    }

    /// An identical copy of this element.
    pub(crate) fn duplicate(&self) -> (r: Self)
        ensures
            r.b0.c0.limbs@ == self.b0.c0.limbs@,
            r.b0.c0.width == self.b0.c0.width,
            r.b0.c1.limbs@ == self.b0.c1.limbs@,
            r.b0.c1.width == self.b0.c1.width,
            r.b1.c0.limbs@ == self.b1.c0.limbs@,
            r.b1.c0.width == self.b1.c0.width,
            r.b1.c1.limbs@ == self.b1.c1.limbs@,
            r.b1.c1.width == self.b1.c1.width,
            r.b2.c0.limbs@ == self.b2.c0.limbs@,
            r.b2.c0.width == self.b2.c0.width,
            r.b2.c1.limbs@ == self.b2.c1.limbs@,
            r.b2.c1.width == self.b2.c1.width,
            r.value() == self.value(),
            r.max_width() == self.max_width(),
            r.max_len() == self.max_len(),
    {
        AllocatedE6Element {
            b0: self.b0.duplicate(),
            b1: self.b1.duplicate(),
            b2: self.b2.duplicate(),
        }
    }
}


/// The determinant chain: the witness computation's intermediate values are
/// congruent to the adjugate coefficients and the determinant.
#[verifier::rlimit(100)]
#[verifier::spinoff_prover]
proof fn lemma_e6_det_chain(
    av: E6,
    t0v: (int, int),
    t1v: (int, int),
    t2v: (int, int),
    t3v: (int, int),
    t4v: (int, int),
    t5v: (int, int),
    n5v: (int, int),
    d0v: (int, int),
    n2v: (int, int),
    d1v: (int, int),
    d2v: (int, int),
    s0v: (int, int),
    s1v: (int, int),
    s2v: (int, int),
    s12v: (int, int),
    n12v: (int, int),
    t6v: (int, int),
)
    requires
        e2_cong(t0v, e2_mul(av.0, av.0)),
        e2_cong(t1v, e2_mul(av.1, av.1)),
        e2_cong(t2v, e2_mul(av.2, av.2)),
        e2_cong(t3v, e2_mul(av.0, av.1)),
        e2_cong(t4v, e2_mul(av.0, av.2)),
        e2_cong(t5v, e2_mul(av.1, av.2)),
        e2_cong(n5v, e2_mul_nr(t5v)),
        e2_cong(d0v, e2_sub(t0v, n5v)),
        e2_cong(n2v, e2_mul_nr(t2v)),
        e2_cong(d1v, e2_sub(n2v, t3v)),
        e2_cong(d2v, e2_sub(t1v, t4v)),
        e2_cong(s0v, e2_mul(av.0, d0v)),
        e2_cong(s1v, e2_mul(av.2, d1v)),
        e2_cong(s2v, e2_mul(av.1, d2v)),
        e2_cong(s12v, e2_add(s1v, s2v)),
        e2_cong(n12v, e2_mul_nr(s12v)),
        e2_cong(t6v, e2_add(s0v, n12v)),
    ensures
        e2_cong(t6v, e6_det(av)),
{
    lemma_e2_cong_mul_nr(t5v, e2_mul(av.1, av.2));
    lemma_e2_cong_sub(t0v, e2_mul(av.0, av.0), n5v, e2_mul_nr(e2_mul(av.1, av.2)));
    lemma_e2_cong_mul_nr(t2v, e2_mul(av.2, av.2));
    lemma_e2_cong_sub(n2v, e2_mul_nr(e2_mul(av.2, av.2)), t3v, e2_mul(av.0, av.1));
    lemma_e2_cong_sub(t1v, e2_mul(av.1, av.1), t4v, e2_mul(av.0, av.2));
    lemma_e2_cong_mul(av.0, av.0, d0v, e6_adj0(av));
    lemma_e2_cong_mul(av.2, av.2, d1v, e6_adj1(av));
    lemma_e2_cong_mul(av.1, av.1, d2v, e6_adj2(av));
    lemma_e2_cong_add(s1v, e2_mul(av.2, e6_adj1(av)), s2v, e2_mul(av.1, e6_adj2(av)));
    lemma_e2_cong_mul_nr(
        s12v,
        e2_add(e2_mul(av.2, e6_adj1(av)), e2_mul(av.1, e6_adj2(av))),
    );
    lemma_e2_cong_add(
        s0v,
        e2_mul(av.0, e6_adj0(av)),
        n12v,
        e2_mul_nr(e2_add(e2_mul(av.2, e6_adj1(av)), e2_mul(av.1, e6_adj2(av)))),
    );
}

/// Off-circuit witness for the inverse of a plaintext cubic value, computed
/// through the gadgets on a scratch circuit; the quadratic inverse underneath
/// is itself a witness.
pub(crate) fn fp6_inv_witness(v: &Fp6) -> (r: Option<Fp6>)
    requires
        v.wf(),
    ensures
        r matches Some(w) ==> w.wf(),
        e6_invertible(v.value()) ==> r is Some,
{
    let mut scratch = Circuit::new();
    let a = AllocatedE6Element::alloc_element(&mut scratch, v);
    let t0 = a.b0.mul(&mut scratch, &a.b0).reduce(&mut scratch);
    let t1 = a.b1.mul(&mut scratch, &a.b1).reduce(&mut scratch);
    let t2 = a.b2.mul(&mut scratch, &a.b2).reduce(&mut scratch);
    let t3 = a.b0.mul(&mut scratch, &a.b1).reduce(&mut scratch);
    let t4 = a.b0.mul(&mut scratch, &a.b2).reduce(&mut scratch);
    let t5 = a.b1.mul(&mut scratch, &a.b2).reduce(&mut scratch);
    let n5 = t5.mul_by_nonresidue(&mut scratch);
    let d0 = t0.sub(&mut scratch, &n5).reduce(&mut scratch);
    let n2 = t2.mul_by_nonresidue(&mut scratch).reduce(&mut scratch);
    let d1 = n2.sub(&mut scratch, &t3).reduce(&mut scratch);
    let d2 = t1.sub(&mut scratch, &t4).reduce(&mut scratch);
    let s0 = a.b0.mul(&mut scratch, &d0).reduce(&mut scratch);
    let s1 = a.b2.mul(&mut scratch, &d1).reduce(&mut scratch);
    let s2 = a.b1.mul(&mut scratch, &d2).reduce(&mut scratch);
    let s12 = s1.add(&mut scratch, &s2).reduce(&mut scratch);
    let n12 = s12.mul_by_nonresidue(&mut scratch);
    let t6 = s0.add(&mut scratch, &n12).reduce(&mut scratch);
    proof {
        lemma_e6_det_chain(
            v.value(),
            t0.value(),
            t1.value(),
            t2.value(),
            t3.value(),
            t4.value(),
            t5.value(),
            n5.value(),
            d0.value(),
            n2.value(),
            d1.value(),
            d2.value(),
            s0.value(),
            s1.value(),
            s2.value(),
            s12.value(),
            n12.value(),
            t6.value(),
        );
        lemma_e2_invertible_cong(t6.value(), e6_det(v.value()));
    }
    let t6inv = match fp2_inv_witness(&t6.to_value()) {
        Some(i) => i,
        None => {
            return None;
        },
    };
    let ie = AllocatedE2Element::alloc_element(&mut scratch, &t6inv);
    let r0 = d0.mul(&mut scratch, &ie).reduce(&mut scratch);
    let r1 = d1.mul(&mut scratch, &ie).reduce(&mut scratch);
    let r2 = d2.mul(&mut scratch, &ie).reduce(&mut scratch);
    Some(Fp6 { b0: r0.to_value(), b1: r1.to_value(), b2: r2.to_value() })
}

} // verus!
