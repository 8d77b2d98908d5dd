//! The sextic extension gadget: a pair `c0 + c1*w` of cubic elements with
//! `w^2 = v`.  Dense multiplication and squaring use the two-term Karatsuba
//! forms; the sparse variants multiply by pairing-line values whose vanishing
//! coefficients are known statically, and each is proved congruent to the
//! dense product of the corresponding sparse operand.  Inversion and
//! division follow the witness-then-verify pattern: the quotient is computed
//! off-circuit, allocated, and the product constraint is emitted and checked.

use vstd::prelude::*;
use crate::arith::{
    fpm, e2_add, e2_zero, e2_one, e6_add, e6_sub, e6_neg, e6_mul, e6_mul_nr, e6_zero, e6_one,
    e6_cong, e2_cong, e2_sub, e2_mul, e12_mul, e12_conj, e12_zero, e12_one, e12_cong, E6, E12, imax, lemma_e6_cong_add,
    lemma_e6_cong_sub, lemma_e6_cong_mul, lemma_e6_cong_mul_nr, lemma_karatsuba_recombine6,
    lemma_e6_mul_v, lemma_e6_mul_dist_right, lemma_e12_square_identity, lemma_e2_mul_zero,
    lemma_e2_mul_one, lemma_e2_mul_cross, lemma_e2_mul_dist_left, lemma_cong_add,
    e12_det, e12_invertible, lemma_e6_invertible_cong,
};
use crate::circuit::{Circuit, SynthError, count_add};
use crate::fields::e2::{Fp2, AllocatedE2Element};
use crate::fields::e6::{Fp6, AllocatedE6Element, fp6_inv_witness};

verus! {

/// A plaintext sextic-extension value.
pub struct Fp12 {
    pub c0: Fp6,
    pub c1: Fp6,
}

impl Fp12 {
    pub open spec fn wf(&self) -> bool {
        self.c0.wf() && self.c1.wf()
    }

    pub open spec fn value(&self) -> E12 {
        (self.c0.value(), self.c1.value())
    }

    pub fn zero() -> (r: Self)
        ensures
            r.wf(),
            r.value() == e12_zero(),
    {
        Fp12 { c0: Fp6::zero(), c1: Fp6::zero() }
    }

    pub fn one() -> (r: Self)
        ensures
            r.wf(),
            r.value() == e12_one(),
    {
        Fp12 { c0: Fp6::one(), c1: Fp6::zero() }
    }
}

/// Off-circuit witness for the inverse of a plaintext sextic value: the
/// conjugate over the norm `c0^2 - v*c1^2`, with the cubic inverse itself a
/// witness.
fn fp12_inv_witness(v: &Fp12) -> (r: Option<Fp12>)
    requires
        v.wf(),
    ensures
        r matches Some(w) ==> w.wf(),
        e12_invertible(v.value()) ==> r is Some,
{
    let mut scratch = Circuit::new();
    let a = AllocatedE12Element::alloc_element(&mut scratch, v);
    let s0 = a.c0.mul(&mut scratch, &a.c0).reduce(&mut scratch);
    let s1 = a.c1.mul(&mut scratch, &a.c1).reduce(&mut scratch);
    let n1 = s1.mul_by_nonresidue(&mut scratch);
    let d = s0.sub(&mut scratch, &n1).reduce(&mut scratch);
    proof {
        let vv = v.value();
        lemma_e6_cong_mul_nr(s1.value(), e6_mul(vv.1, vv.1));
        lemma_e6_cong_sub(
            s0.value(),
            e6_mul(vv.0, vv.0),
            n1.value(),
            e6_mul_nr(e6_mul(vv.1, vv.1)),
        );
        lemma_e6_invertible_cong(d.value(), e12_det(vv));
    }
    let dinv = match fp6_inv_witness(&d.to_value()) {
        Some(i) => i,
        None => {
            return None;
        },
    };
    let ie = AllocatedE6Element::alloc_element(&mut scratch, &dinv);
    let r0 = a.c0.mul(&mut scratch, &ie).reduce(&mut scratch);
    let c1n = a.c1.neg(&mut scratch).reduce(&mut scratch);
    let r1 = c1n.mul(&mut scratch, &ie).reduce(&mut scratch);
    Some(Fp12 { c0: r0.to_value(), c1: r1.to_value() })
}


/// Assembly of the two-term Karatsuba product at the sextic level.
#[verifier::rlimit(100)]
#[verifier::spinoff_prover]
proof fn lemma_e12_mul_assemble(
    mv: E6,
    t0v: E6,
    t1v: E6,
    w1v: E6,
    z1v: E6,
    nv: E6,
    z0v: E6,
    x: E12,
    y: E12,
)
    requires
        e6_cong(mv, e6_mul(e6_add(x.0, x.1), e6_add(y.0, y.1))),
        e6_cong(t0v, e6_mul(x.0, y.0)),
        e6_cong(t1v, e6_mul(x.1, y.1)),
        e6_cong(w1v, e6_sub(mv, t0v)),
        e6_cong(z1v, e6_sub(w1v, t1v)),
        e6_cong(nv, e6_mul_nr(t1v)),
        z0v == e6_add(nv, t0v),
    ensures
        e12_cong((z0v, z1v), e12_mul(x, y)),
{
    lemma_karatsuba_recombine6(mv, t0v, t1v, w1v, z1v, x.0, y.0, x.1, y.1);
    lemma_e6_cong_mul_nr(t1v, e6_mul(x.1, y.1));
    lemma_e6_cong_add(nv, e6_mul_nr(e6_mul(x.1, y.1)), t0v, e6_mul(x.0, y.0));
}

/// Assembly of the complex-squaring form at the sextic level.
#[verifier::rlimit(100)]
#[verifier::spinoff_prover]
proof fn lemma_e12_square_assemble(
    n1v: E6,
    n1nv: E6,
    c3v: E6,
    c3rv: E6,
    c0srv: E6,
    c2v: E6,
    pv: E6,
    qv: E6,
    z1v: E6,
    c2nv: E6,
    z0v: E6,
    x: E12,
)
    requires
        e6_cong(n1v, e6_mul_nr(x.1)),
        e6_cong(n1nv, e6_neg(n1v)),
        c3v == e6_add(x.0, n1nv),
        e6_cong(c3rv, c3v),
        e6_cong(c0srv, e6_sub(x.0, x.1)),
        e6_cong(c2v, e6_mul(x.0, x.1)),
        e6_cong(pv, e6_mul(c0srv, c3rv)),
        qv == e6_add(pv, c2v),
        z1v == e6_add(c2v, c2v),
        e6_cong(c2nv, e6_mul_nr(c2v)),
        z0v == e6_add(qv, c2nv),
    ensures
        e12_cong((z0v, z1v), e12_mul(x, x)),
{
    crate::arith::lemma_e6_cong_neg(n1v, e6_mul_nr(x.1));
    lemma_e6_cong_add(x.0, x.0, n1nv, e6_neg(e6_mul_nr(x.1)));
    assert(e6_add(x.0, e6_neg(e6_mul_nr(x.1))) == e6_sub(x.0, e6_mul_nr(x.1)));
    lemma_e6_cong_mul(c0srv, e6_sub(x.0, x.1), c3rv, e6_sub(x.0, e6_mul_nr(x.1)));
    lemma_e6_cong_add(
        pv,
        e6_mul(e6_sub(x.0, x.1), e6_sub(x.0, e6_mul_nr(x.1))),
        c2v,
        e6_mul(x.0, x.1),
    );
    lemma_e6_cong_mul_nr(c2v, e6_mul(x.0, x.1));
    lemma_e6_cong_add(
        qv,
        e6_add(e6_mul(e6_sub(x.0, x.1), e6_sub(x.0, e6_mul_nr(x.1))), e6_mul(x.0, x.1)),
        c2nv,
        e6_mul_nr(e6_mul(x.0, x.1)),
    );
    lemma_e12_square_identity(x.0, x.1);
    lemma_e6_cong_add(c2v, e6_mul(x.0, x.1), c2v, e6_mul(x.1, x.0));
    crate::arith::lemma_e6_mul_comm(x.0, x.1);
}

/// Assembly of the sparse `(c0, c1, 0) / (0, 1, 0)` product.
#[verifier::rlimit(100)]
#[verifier::spinoff_prover]
proof fn lemma_e12_mul_by_014_assemble(
    av: E6,
    bv: E6,
    dv: (int, int),
    sumv: E6,
    mv: E6,
    w1v: E6,
    rc1v: E6,
    nbv: E6,
    rc0v: E6,
    z: E12,
    x0: (int, int),
    x1: (int, int),
)
    requires
        e6_cong(av, e6_mul(z.0, (x0, x1, e2_zero()))),
        e6_cong(bv, e6_mul_nr(z.1)),
        dv == e2_add(x1, e2_one()),
        sumv == e6_add(z.1, z.0),
        e6_cong(mv, e6_mul(sumv, (x0, dv, e2_zero()))),
        e6_cong(w1v, e6_sub(mv, av)),
        e6_cong(rc1v, e6_sub(w1v, bv)),
        e6_cong(nbv, e6_mul_nr(bv)),
        rc0v == e6_add(nbv, av),
    ensures
        e12_cong(
            (rc0v, rc1v),
            e12_mul(z, ((x0, x1, e2_zero()), (e2_zero(), e2_one(), e2_zero()))),
        ),
{
    let s0: E6 = (x0, x1, e2_zero());
    let s1: E6 = (e2_zero(), e2_one(), e2_zero());
    lemma_e6_mul_v(z.1);
    lemma_e6_mul_v(z.0);
    assert((x0, dv, e2_zero()) == e6_add(s0, s1));
    assert(e6_add(z.0, z.1) == sumv);
    lemma_karatsuba_recombine6(mv, av, bv, w1v, rc1v, z.0, s0, z.1, s1);
    lemma_e6_cong_mul_nr(bv, e6_mul(z.1, s1));
    lemma_e6_cong_add(nbv, e6_mul_nr(e6_mul(z.1, s1)), av, e6_mul(z.0, s0));
}

/// Assembly of the product of two sparse `(c, d, 0) / (0, 1, 0)` values.
#[verifier::rlimit(100)]
#[verifier::spinoff_prover]
proof fn lemma_e12_mul_014_by_014_assemble(
    x0v: (int, int),
    x1v: (int, int),
    m04v: (int, int),
    w04v: (int, int),
    x04v: (int, int),
    m01v: (int, int),
    w01v: (int, int),
    x01v: (int, int),
    m14v: (int, int),
    w14v: (int, int),
    x14v: (int, int),
    zc0b0v: (int, int),
    cv0: (int, int),
    cv1: (int, int),
    dv0: (int, int),
    dv1: (int, int),
)
    requires
        e2_cong(x0v, e2_mul(cv0, dv0)),
        e2_cong(x1v, e2_mul(cv1, dv1)),
        e2_cong(m04v, e2_mul(e2_add(dv0, e2_one()), e2_add(cv0, e2_one()))),
        e2_cong(w04v, e2_sub(m04v, x0v)),
        e2_cong(x04v, e2_sub(w04v, e2_one())),
        e2_cong(m01v, e2_mul(e2_add(dv0, dv1), e2_add(cv0, cv1))),
        e2_cong(w01v, e2_sub(m01v, x0v)),
        e2_cong(x01v, e2_sub(w01v, x1v)),
        e2_cong(m14v, e2_mul(e2_add(dv1, e2_one()), e2_add(cv1, e2_one()))),
        e2_cong(w14v, e2_sub(m14v, x1v)),
        e2_cong(x14v, e2_sub(w14v, e2_one())),
        zc0b0v == e2_add((1int, 1int), x0v),
    ensures
        e12_cong(
            ((zc0b0v, x01v, x1v), (e2_zero(), x04v, x14v)),
            e12_mul(
                ((cv0, cv1, e2_zero()), (e2_zero(), e2_one(), e2_zero())),
                ((dv0, dv1, e2_zero()), (e2_zero(), e2_one(), e2_zero())),
            ),
        ),
{
    lemma_e2_mul_one(e2_one());
    lemma_e2_mul_one(cv0);
    lemma_e2_mul_one(cv1);
    lemma_e2_mul_one(dv0);
    lemma_e2_mul_one(dv1);
    lemma_e2_mul_zero(cv0);
    lemma_e2_mul_zero(cv1);
    lemma_e2_mul_zero(dv0);
    lemma_e2_mul_zero(dv1);
    lemma_e2_mul_zero(e2_zero());
    lemma_e2_mul_zero(e2_one());
    crate::arith::lemma_e2_mul_comm(cv0, dv0);
    crate::arith::lemma_e2_mul_comm(cv1, dv1);
    crate::arith::lemma_e2_mul_comm(cv0, dv1);
    crate::arith::lemma_e2_mul_comm(cv1, dv0);
    crate::arith::lemma_karatsuba_recombine(
        m04v,
        x0v,
        e2_one(),
        w04v,
        x04v,
        dv0,
        cv0,
        e2_one(),
        e2_one(),
    );
    crate::arith::lemma_karatsuba_recombine(
        m01v,
        x0v,
        x1v,
        w01v,
        x01v,
        dv0,
        cv0,
        dv1,
        cv1,
    );
    crate::arith::lemma_karatsuba_recombine(
        m14v,
        x1v,
        e2_one(),
        w14v,
        x14v,
        dv1,
        cv1,
        e2_one(),
        e2_one(),
    );
    crate::arith::lemma_e2_cong_add((1int, 1int), (1int, 1int), x0v, e2_mul(cv0, dv0));
}

/// A sextic-extension element allocated in the circuit.
pub struct AllocatedE12Element {
    pub c0: AllocatedE6Element,
    pub c1: AllocatedE6Element,
}

impl AllocatedE12Element {
    pub open spec fn wf(&self) -> bool {
        self.c0.wf() && self.c1.wf()
    }

    pub open spec fn reduced(&self) -> bool {
        self.c0.reduced() && self.c1.reduced()
    }

    pub open spec fn value(&self) -> E12 {
        (self.c0.value(), self.c1.value())
    }

    pub open spec fn max_width(&self) -> int {
        imax(self.c0.max_width(), self.c1.max_width())
    }

    pub open spec fn max_len(&self) -> int {
        imax(self.c0.max_len(), self.c1.max_len())
    }

    pub open spec fn same_shape(&self, other: &Self) -> bool {
        self.c0.same_shape(&other.c0) && self.c1.same_shape(&other.c1)
    }

    pub fn zero() -> (r: Self)
        ensures
            r.reduced(),
            r.wf(),
            r.value() == e12_zero(),
    {
        AllocatedE12Element { c0: AllocatedE6Element::zero(), c1: AllocatedE6Element::zero() }
    }

    pub fn one() -> (r: Self)
        ensures
            r.reduced(),
            r.wf(),
            r.value() == e12_one(),
    {
        AllocatedE12Element { c0: AllocatedE6Element::one(), c1: AllocatedE6Element::zero() }
    }

    pub fn alloc_element(cs: &mut Circuit, value: &Fp12) -> (r: Self)
        requires
            value.wf(),
        ensures
            r.reduced(),
            r.wf(),
            r.value() == value.value(),
            final(cs).constraints == count_add(
                count_add(
                    count_add(
                        count_add(count_add(count_add(old(cs).constraints, 24), 24), 24),
                        24,
                    ),
                    24,
                ),
                24,
            ),
            final(cs).satisfied == old(cs).satisfied,
    {
        let c0 = AllocatedE6Element::alloc_element(cs, &value.c0);
        let c1 = AllocatedE6Element::alloc_element(cs, &value.c1);
        AllocatedE12Element { c0, c1 }
    }

    /// Extract the plaintext value of a reduced element.
    pub fn to_value(&self) -> (r: Fp12)
        requires
            self.reduced(),
        ensures
            r.wf(),
            r.value() == self.value(),
    {
        Fp12 { c0: self.c0.to_value(), c1: self.c1.to_value() }
    }

    pub fn assert_is_equal(cs: &mut Circuit, a: &Self, b: &Self)
        requires
            a.wf(),
            b.wf(),
        ensures
            final(cs).satisfied == (old(cs).satisfied && e12_cong(a.value(), b.value())),
    {
        AllocatedE6Element::assert_is_equal(cs, &a.c0, &b.c0);
        AllocatedE6Element::assert_is_equal(cs, &a.c1, &b.c1);
    }

    pub fn reduce(&self, cs: &mut Circuit) -> (r: Self)
        requires
            self.wf(),
        ensures
            r.reduced(),
            r.wf(),
            e12_cong(r.value(), self.value()),
            final(cs).satisfied == old(cs).satisfied,
    {
        let c0 = self.c0.reduce(cs);
        let c1 = self.c1.reduce(cs);
        AllocatedE12Element { c0, c1 }
    }

    pub fn assert_equality_to_constant(&self, cs: &mut Circuit, constant: &Self)
        requires
            self.reduced(),
            constant.reduced(),
        ensures
            final(cs).satisfied == (old(cs).satisfied && e12_cong(self.value(), constant.value())),
    {
        self.c0.assert_equality_to_constant(cs, &constant.c0);
        self.c1.assert_equality_to_constant(cs, &constant.c1);
    }

    /// A boolean set exactly when every coordinate's residue is zero: the
    /// conjunction of the coordinate zero tests, bottom up.
    pub fn alloc_is_zero(&self, cs: &mut Circuit) -> (r: bool)
        requires
            self.wf(),
        ensures
            r == (fpm(self.value().0.0.0) == 0 && fpm(self.value().0.0.1) == 0 && fpm(
                self.value().0.1.0,
            ) == 0 && fpm(self.value().0.1.1) == 0 && fpm(self.value().0.2.0) == 0 && fpm(
                self.value().0.2.1,
            ) == 0 && fpm(self.value().1.0.0) == 0 && fpm(self.value().1.0.1) == 0 && fpm(
                self.value().1.1.0,
            ) == 0 && fpm(self.value().1.1.1) == 0 && fpm(self.value().1.2.0) == 0 && fpm(
                self.value().1.2.1,
            ) == 0),
            final(cs).satisfied == old(cs).satisfied,
    {
        let z0 = self.c0.alloc_is_zero(cs);
        let z1 = self.c1.alloc_is_zero(cs);
        cs.bump(1);
        z0 && z1
    }

    pub fn add(&self, cs: &mut Circuit, value: &Self) -> (r: Self)
        requires
            self.wf(),
            value.wf(),
            self.max_width() <= 124,
            value.max_width() <= 124,
        ensures
            r.wf(),
            r.value() == (e6_add(self.value().0, value.value().0), e6_add(
                self.value().1,
                value.value().1,
            )),
            r.max_width() <= imax(self.max_width(), value.max_width()) + 1,
            r.max_len() <= imax(self.max_len(), value.max_len()),
            final(cs).constraints == old(cs).constraints,
            final(cs).satisfied == old(cs).satisfied,
    {
        let c0 = self.c0.add(cs, &value.c0);
        let c1 = self.c1.add(cs, &value.c1);
        AllocatedE12Element { c0, c1 }
    }

    pub fn sub(&self, cs: &mut Circuit, value: &Self) -> (r: Self)
        requires
            self.wf(),
            value.wf(),
            self.max_width() <= 124,
            value.max_width() <= 122,
        ensures
            r.wf(),
            e6_cong(r.value().0, e6_sub(self.value().0, value.value().0)),
            e6_cong(r.value().1, e6_sub(self.value().1, value.value().1)),
            r.max_width() <= imax(self.max_width(), value.max_width() + 1) + 1,
            r.max_len() <= imax(imax(self.max_len(), value.max_len()), 12),
            final(cs).constraints == old(cs).constraints,
            final(cs).satisfied == old(cs).satisfied,
    {
        let c0 = self.c0.sub(cs, &value.c0);
        let c1 = self.c1.sub(cs, &value.c1);
        AllocatedE12Element { c0, c1 }
    }

    /// Conjugation over the sextic layer: negate the odd coefficient.
    pub fn conjugate(&self, cs: &mut Circuit) -> (r: Self)
        requires
            self.wf(),
            self.max_width() <= 122,
        ensures
            r.wf(),
            e12_cong(r.value(), e12_conj(self.value())),
            r.max_width() <= self.max_width() + 2,
            r.max_len() <= imax(self.max_len(), 12),
            final(cs).constraints == old(cs).constraints,
            final(cs).satisfied == old(cs).satisfied,
    {
        let z1 = self.c1.neg(cs);
        AllocatedE12Element { c0: self.c0.duplicate(), c1: z1 }
    }

    /// Two-term Karatsuba multiplication over the cubic layer.
    #[verifier::rlimit(100)]
    pub fn mul(&self, cs: &mut Circuit, value: &Self) -> (r: Self)
        requires
            self.reduced(),
            value.reduced(),
        ensures
            r.wf(),
            e12_cong(r.value(), e12_mul(self.value(), value.value())),
            r.max_width() <= 110,
            r.max_len() <= 33,
            final(cs).satisfied == old(cs).satisfied,
    {
        let ghost xv = self.value();
        let ghost yv = value.value();
        let a = self.c0.add(cs, &self.c1);
        let b = value.c0.add(cs, &value.c1);
        let m = a.mul(cs, &b);
        let t0 = self.c0.mul(cs, &value.c0);
        let t1 = self.c1.mul(cs, &value.c1);
        let w1 = m.sub(cs, &t0);
        let z1 = w1.sub(cs, &t1);
        let n = t1.mul_by_nonresidue(cs);
        let z0 = n.add(cs, &t0);
        proof {
            lemma_e12_mul_assemble(
                m.value(),
                t0.value(),
                t1.value(),
                w1.value(),
                z1.value(),
                n.value(),
                z0.value(),
                xv,
                yv,
            );
        }
        AllocatedE12Element { c0: z0, c1: z1 }
    }

    /// Dedicated squaring: the complex-squaring form, cheaper than the dense
    /// multiplication, proved equal to it.
    #[verifier::rlimit(100)]
    pub fn square(&self, cs: &mut Circuit) -> (r: Self)
        requires
            self.reduced(),
        ensures
            r.wf(),
            e12_cong(r.value(), e12_mul(self.value(), self.value())),
            r.max_width() <= 120,
            r.max_len() <= 40,
            final(cs).satisfied == old(cs).satisfied,
    {
        let ghost xv = self.value();
        let c0s = self.c0.sub(cs, &self.c1);
        let n1 = self.c1.mul_by_nonresidue(cs);
        let n1n = n1.neg(cs);
        let c3 = self.c0.add(cs, &n1n);
        let c3r = c3.reduce(cs);
        let c0sr = c0s.reduce(cs);
        let c2 = self.c0.mul(cs, &self.c1);
        let p = c0sr.mul(cs, &c3r);
        let q = p.add(cs, &c2);
        let z1 = c2.double(cs);
        let c2n = c2.mul_by_nonresidue(cs);
        let z0 = q.add(cs, &c2n);
        proof {
            lemma_e12_square_assemble(
                n1.value(),
                n1n.value(),
                c3.value(),
                c3r.value(),
                c0sr.value(),
                c2.value(),
                p.value(),
                q.value(),
                z1.value(),
                c2n.value(),
                z0.value(),
                xv,
            );
        }
        AllocatedE12Element { c0: z0, c1: z1 }
    }

    /// Multiplication by the sparse line value whose cubic coefficients are
    /// `(c0, c1, 0)` and `(0, 1, 0)`, congruent to the dense product with
    /// that operand.
    #[verifier::rlimit(100)]
    pub fn mul_by_014(
        &self,
        cs: &mut Circuit,
        c0: &AllocatedE2Element,
        c1: &AllocatedE2Element,
    ) -> (r: Self)
        requires
            self.reduced(),
            c0.reduced(),
            c1.reduced(),
        ensures
            r.wf(),
            e12_cong(
                r.value(),
                e12_mul(
                    self.value(),
                    (
                        (c0.value(), c1.value(), e2_zero()),
                        (e2_zero(), e2_one(), e2_zero()),
                    ),
                ),
            ),
            r.max_width() <= 110,
            r.max_len() <= 33,
            final(cs).satisfied == old(cs).satisfied,
    {
        let ghost zv = self.value();
        let ghost s0: E6 = (c0.value(), c1.value(), e2_zero());
        let ghost s1: E6 = (e2_zero(), e2_one(), e2_zero());
        let a = self.c0.mul_by_01(cs, c0, c1);
        let bb0 = self.c1.b2.mul_by_nonresidue(cs);
        let b = AllocatedE6Element {
            b0: bb0,
            b1: self.c1.b0.duplicate(),
            b2: self.c1.b1.duplicate(),
        };
        let one2 = AllocatedE2Element::one();
        let d = c1.add(cs, &one2);
        let sum = self.c1.add(cs, &self.c0);
        let m = sum.mul_by_01(cs, c0, &d);
        let w1 = m.sub(cs, &a);
        let rc1 = w1.sub(cs, &b);
        let nb = b.mul_by_nonresidue(cs);
        let rc0 = nb.add(cs, &a);
        proof {
            lemma_e12_mul_by_014_assemble(
                a.value(),
                b.value(),
                d.value(),
                sum.value(),
                m.value(),
                w1.value(),
                rc1.value(),
                nb.value(),
                rc0.value(),
                zv,
                c0.value(),
                c1.value(),
            );
        }
        AllocatedE12Element { c0: rc0, c1: rc1 }
    }

    /// Product of two sparse line values of the `(c0, c1, 0) / (0, 1, 0)`
    /// shape, congruent to the dense product of the two sparse operands.
    #[verifier::rlimit(100)]
    pub fn mul_014_by_014(
        cs: &mut Circuit,
        c0: &AllocatedE2Element,
        c1: &AllocatedE2Element,
        d0: &AllocatedE2Element,
        d1: &AllocatedE2Element,
    ) -> (r: Self)
        requires
            c0.reduced(),
            c1.reduced(),
            d0.reduced(),
            d1.reduced(),
        ensures
            r.wf(),
            e12_cong(
                r.value(),
                e12_mul(
                    ((c0.value(), c1.value(), e2_zero()), (e2_zero(), e2_one(), e2_zero())),
                    ((d0.value(), d1.value(), e2_zero()), (e2_zero(), e2_one(), e2_zero())),
                ),
            ),
            r.value().1.0 == e2_zero(),
            r.max_width() <= 110,
            r.max_len() <= 33,
            final(cs).satisfied == old(cs).satisfied,
    {
        let ghost cv0 = c0.value();
        let ghost cv1 = c1.value();
        let ghost dv0 = d0.value();
        let ghost dv1 = d1.value();
        let one = AllocatedE2Element::one();
        let x0 = c0.mul(cs, d0);
        let x1 = c1.mul(cs, d1);
        let tmp = c0.add(cs, &one);
        let s04 = d0.add(cs, &one);
        let m04 = s04.mul(cs, &tmp);
        let w04 = m04.sub(cs, &x0);
        let x04 = w04.sub(cs, &one);
        let tmp2 = c0.add(cs, c1);
        let s01 = d0.add(cs, d1);
        let m01 = s01.mul(cs, &tmp2);
        let w01 = m01.sub(cs, &x0);
        let x01 = w01.sub(cs, &x1);
        let tmp3 = c1.add(cs, &one);
        let s14 = d1.add(cs, &one);
        let m14 = s14.mul(cs, &tmp3);
        let w14 = m14.sub(cs, &x1);
        let x14 = w14.sub(cs, &one);
        let zc0b0 = AllocatedE2Element::non_residue();
        let zc0b0 = zc0b0.add(cs, &x0);
        proof {
            lemma_e12_mul_014_by_014_assemble(
                x0.value(),
                x1.value(),
                m04.value(),
                w04.value(),
                x04.value(),
                m01.value(),
                w01.value(),
                x01.value(),
                m14.value(),
                w14.value(),
                x14.value(),
                zc0b0.value(),
                cv0,
                cv1,
                dv0,
                dv1,
            );
        }
        AllocatedE12Element {
            c0: AllocatedE6Element { b0: zc0b0, b1: x01, b2: x1 },
            c1: AllocatedE6Element { b0: AllocatedE2Element::zero(), b1: x04, b2: x14 },
        }
    }

    /// Multiplication by the sparse value whose cubic coefficients are
    /// `(c00, c01, c02)` and `(0, c11, c12)`, congruent to the dense product
    /// with that operand.
    #[verifier::rlimit(100)]
    pub fn mul_by_01245(
        &self,
        cs: &mut Circuit,
        c00: &AllocatedE2Element,
        c01: &AllocatedE2Element,
        c02: &AllocatedE2Element,
        c11: &AllocatedE2Element,
        c12: &AllocatedE2Element,
    ) -> (r: Self)
        requires
            self.reduced(),
            c00.reduced(),
            c01.reduced(),
            c02.reduced(),
            c11.reduced(),
            c12.reduced(),
        ensures
            r.wf(),
            e12_cong(
                r.value(),
                e12_mul(
                    self.value(),
                    (
                        (c00.value(), c01.value(), c02.value()),
                        (e2_zero(), c11.value(), c12.value()),
                    ),
                ),
            ),
            r.max_width() <= 110,
            r.max_len() <= 33,
            final(cs).satisfied == old(cs).satisfied,
    {
        let ghost zv = self.value();
        let ghost s0: E6 = (c00.value(), c01.value(), c02.value());
        let ghost s1: E6 = (e2_zero(), c11.value(), c12.value());
        let sc0 = AllocatedE6Element {
            b0: c00.duplicate(),
            b1: c01.duplicate(),
            b2: c02.duplicate(),
        };
        let sc1 = AllocatedE6Element {
            b0: AllocatedE2Element::zero(),
            b1: c11.duplicate(),
            b2: c12.duplicate(),
        };
        let a = self.c0.add(cs, &self.c1);
        let b = sc0.add(cs, &sc1);
        let m = a.mul(cs, &b);
        let t0 = self.c0.mul(cs, &sc0);
        let c = self.c1.mul_by_12(cs, c11, c12);
        let w1 = m.sub(cs, &t0);
        let z1 = w1.sub(cs, &c);
        let n = c.mul_by_nonresidue(cs);
        let z0 = n.add(cs, &t0);
        proof {
            lemma_karatsuba_recombine6(
                m.value(),
                t0.value(),
                c.value(),
                w1.value(),
                z1.value(),
                zv.0,
                s0,
                zv.1,
                s1,
            );
            lemma_e6_cong_mul_nr(c.value(), e6_mul(zv.1, s1));
            lemma_e6_cong_add(n.value(), e6_mul_nr(e6_mul(zv.1, s1)), t0.value(), e6_mul(zv.0, s0));
        }
        AllocatedE12Element { c0: z0, c1: z1 }
    }

    /// Inversion through a witnessed inverse: the inverse is computed
    /// off-circuit, allocated, and the constraint `self * inverse = 1` is
    /// emitted; the system stays satisfied exactly when the product is one.
    /// An element whose value is the additive identity is rejected before
    /// anything is allocated.
    pub fn inverse(&self, cs: &mut Circuit) -> (r: Result<Self, SynthError>)
        requires
            self.reduced(),
        ensures
            (self.value() == e12_zero()) <==> (r matches Err(e) && e == SynthError::DivisionByZero),
            e12_invertible(self.value()) ==> r is Ok,
            r matches Ok(q) ==> q.reduced() && final(cs).satisfied == (old(cs).satisfied
                && e12_cong(e12_mul(q.value(), self.value()), e12_one())),
            r matches Err(_) ==> final(cs).satisfied == old(cs).satisfied,
    {
        let v = self.to_value();
        if Self::value_is_zero(&v) {
            proof {
                crate::arith::lemma_e12_zero_not_invertible();
            }
            return Err(SynthError::DivisionByZero);
        }
        let w = match fp12_inv_witness(&v) {
            Some(w) => w,
            None => {
                return Err(SynthError::Unsatisfiable);
            },
        };
        let inv_alloc = Self::alloc_element(cs, &w);
        let prod = inv_alloc.mul(cs, self);
        let one = Self::one();
        Self::assert_is_equal(cs, &prod, &one);
        Ok(inv_alloc)
    }

    /// Division through a witnessed quotient: `self / value` is computed
    /// off-circuit, allocated, and the constraint `quotient * value = self`
    /// is emitted; the system stays satisfied exactly when the product is
    /// the dividend.  A divisor whose value is the additive identity is
    /// rejected before anything is allocated.
    pub fn div_unchecked(&self, cs: &mut Circuit, value: &Self) -> (r: Result<Self, SynthError>)
        requires
            self.reduced(),
            value.reduced(),
        ensures
            (value.value() == e12_zero()) <==> (r matches Err(e) && e
                == SynthError::DivisionByZero),
            e12_invertible(value.value()) ==> r is Ok,
            r matches Ok(q) ==> q.reduced() && final(cs).satisfied == (old(cs).satisfied
                && e12_cong(e12_mul(q.value(), value.value()), self.value())),
            r matches Err(_) ==> final(cs).satisfied == old(cs).satisfied,
    {
        let x = self.to_value();
        let y = value.to_value();
        if Self::value_is_zero(&y) {
            proof {
                crate::arith::lemma_e12_zero_not_invertible();
            }
            return Err(SynthError::DivisionByZero);
        }
        let yinv = match fp12_inv_witness(&y) {
            Some(w) => w,
            None => {
                return Err(SynthError::Unsatisfiable);
            },
        };
        // quotient witness: x * y^-1, computed through the gadgets
        let mut scratch = Circuit::new();
        let xe = Self::alloc_element(&mut scratch, &x);
        let ie = Self::alloc_element(&mut scratch, &yinv);
        let qe = xe.mul(&mut scratch, &ie);
        let q = qe.reduce(&mut scratch).to_value();
        let div_alloc = Self::alloc_element(cs, &q);
        let prod = div_alloc.mul(cs, value);
        Self::assert_is_equal(cs, &prod, self);
        Ok(div_alloc)
    }

    /// Whether a plaintext value is the additive identity.
    fn value_is_zero(v: &Fp12) -> (r: bool)
        requires
            v.wf(),
        ensures
            r == (v.value() == e12_zero()),
    {
        let mut scratch = Circuit::new();
        let a = Self::alloc_element(&mut scratch, v);
        let z = a.alloc_is_zero(&mut scratch);
        proof {
            let val = v.value();
            crate::arith::lemma_fpm_small(val.0.0.0);
            crate::arith::lemma_fpm_small(val.0.0.1);
            crate::arith::lemma_fpm_small(val.0.1.0);
            crate::arith::lemma_fpm_small(val.0.1.1);
            crate::arith::lemma_fpm_small(val.0.2.0);
            crate::arith::lemma_fpm_small(val.0.2.1);
            crate::arith::lemma_fpm_small(val.1.0.0);
            crate::arith::lemma_fpm_small(val.1.0.1);
            crate::arith::lemma_fpm_small(val.1.1.0);
            crate::arith::lemma_fpm_small(val.1.1.1);
            crate::arith::lemma_fpm_small(val.1.2.0);
            crate::arith::lemma_fpm_small(val.1.2.1);
        }
        z
    }

    /// Choose between two equally shaped elements; the constraint count
    /// depends only on the shape, never on the chosen branch.
    pub fn conditionally_select(cs: &mut Circuit, z0: &Self, z1: &Self, condition: bool) -> (r:
        Self)
        requires
            z0.wf(),
            z1.wf(),
            z0.same_shape(z1),
        ensures
            r.wf(),
            condition ==> r.value() == z0.value(),
            !condition ==> r.value() == z1.value(),
            final(cs).constraints == e12_select_count(old(cs).constraints, z0),
            final(cs).satisfied == old(cs).satisfied,
    {
        let c0 = AllocatedE6Element::conditionally_select(cs, &z0.c0, &z1.c0, condition);
        let c1 = AllocatedE6Element::conditionally_select(cs, &z0.c1, &z1.c1, condition);
        AllocatedE12Element { c0, c1 }
    }
}

/// The constraint count of a sextic conditional selection: one constraint
/// per limb of the first operand's shape, independent of the condition.
pub open spec fn e12_select_count(c: u64, z: &AllocatedE12Element) -> u64 {
    count_add(
        count_add(
            count_add(
                count_add(
                    count_add(
                        count_add(
                            count_add(
                                count_add(
                                    count_add(
                                        count_add(
                                            count_add(
                                                count_add(c, z.c0.b0.c0.limbs@.len() as u64),
                                                z.c0.b0.c1.limbs@.len() as u64,
                                            ),
                                            z.c0.b1.c0.limbs@.len() as u64,
                                        ),
                                        z.c0.b1.c1.limbs@.len() as u64,
                                    ),
                                    z.c0.b2.c0.limbs@.len() as u64,
                                ),
                                z.c0.b2.c1.limbs@.len() as u64,
                            ),
                            z.c1.b0.c0.limbs@.len() as u64,
                        ),
                        z.c1.b0.c1.limbs@.len() as u64,
                    ),
                    z.c1.b1.c0.limbs@.len() as u64,
                ),
                z.c1.b1.c1.limbs@.len() as u64,
            ),
            z.c1.b2.c0.limbs@.len() as u64,
        ),
        z.c1.b2.c1.limbs@.len() as u64,
    )
}

} // verus!
