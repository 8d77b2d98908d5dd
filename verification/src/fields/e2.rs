//! The quadratic extension gadget: a pair `c0 + c1*u` of base-field
//! elements with `u^2 = -1`.  Multiplication uses the Karatsuba form, three
//! base-field multiplications instead of four; the nonresidue of the next
//! level is `1 + u`.

use vstd::prelude::*;
use crate::arith::{
    fpm, cong, e2_add, e2_sub, e2_neg, e2_mul, e2_mul_nr, e2_zero, e2_one, e2_cong, imax,
    lemma_cong_sub, lemma_cong_add, lemma_e2_cong_sub, lemma_e2_cong_add,
    lemma_karatsuba_recombine, e2_norm, e2_invertible, lemma_invertible_cong,
};
use crate::circuit::{Circuit, SynthError, count_add};
use crate::fields::fp::{Fp, AllocatedFieldElement};

verus! {

/// The Karatsuba recombination: the cross coefficient from one extra
/// product of sums.
proof fn lemma_karatsuba_cross(a0: int, a1: int, b0: int, b1: int)
    by (nonlinear_arith)
    ensures
        (a0 + a1) * (b0 + b1) - a0 * b0 - a1 * b1 == a0 * b1 + a1 * b0,
{
}

/// A plaintext quadratic-extension value.
pub struct Fp2 {
    pub c0: Fp,
    pub c1: Fp,
}

impl Fp2 {
    pub open spec fn wf(&self) -> bool {
        self.c0.wf() && self.c1.wf()
    }

    pub open spec fn value(&self) -> (int, int) {
        (self.c0.as_int(), self.c1.as_int())
    }

    pub fn zero() -> (r: Self)
        ensures
            r.wf(),
            r.value() == e2_zero(),
    {
        Fp2 { c0: Fp::zero(), c1: Fp::zero() }
    }

    pub fn one() -> (r: Self)
        ensures
            r.wf(),
            r.value() == e2_one(),
    {
        Fp2 { c0: Fp::one(), c1: Fp::zero() }
    }
}

/// A quadratic-extension element allocated in the circuit.
pub struct AllocatedE2Element {
    pub c0: AllocatedFieldElement,
    pub c1: AllocatedFieldElement,
}

impl AllocatedE2Element {
    pub open spec fn wf(&self) -> bool {
        self.c0.wf() && self.c1.wf()
    }

    /// Both coordinates in canonical reduced form.
    pub open spec fn reduced(&self) -> bool {
        self.c0.canonical() && self.c1.canonical()
    }

    pub open spec fn value(&self) -> (int, int) {
        (self.c0.as_int(), self.c1.as_int())
    }

    /// The widest coordinate's tracked bit width.
    pub open spec fn max_width(&self) -> int {
        imax(self.c0.width as int, self.c1.width as int)
    }

    /// The longest coordinate's limb count.
    pub open spec fn max_len(&self) -> int {
        imax(self.c0.limbs@.len() as int, self.c1.limbs@.len() as int)
    }

    /// Coordinates shaped limb-for-limb like the other element's.
    pub open spec fn same_shape(&self, other: &Self) -> bool {
        self.c0.limbs@.len() == other.c0.limbs@.len() && self.c1.limbs@.len()
            == other.c1.limbs@.len()
    }

    pub fn zero() -> (r: Self)
        ensures
            r.reduced(),
            r.wf(),
            r.value() == e2_zero(),
    {
        AllocatedE2Element { c0: AllocatedFieldElement::zero(), c1: AllocatedFieldElement::zero() }
    }

    pub fn one() -> (r: Self)
        ensures
            r.reduced(),
            r.wf(),
            r.value() == e2_one(),
    {
        AllocatedE2Element { c0: AllocatedFieldElement::one(), c1: AllocatedFieldElement::zero() }
    }

    /// The quadratic nonresidue `1 + u` as a circuit constant.
    pub fn non_residue() -> (r: Self)
        ensures
            r.reduced(),
            r.wf(),
            r.value() == (1int, 1int),
    {
        AllocatedE2Element { c0: AllocatedFieldElement::one(), c1: AllocatedFieldElement::one() }
    }

    pub fn alloc_element(cs: &mut Circuit, value: &Fp2) -> (r: Self)
        requires
            value.wf(),
        ensures
            r.reduced(),
            r.wf(),
            r.value() == value.value(),
            final(cs).constraints == count_add(old(cs).constraints, 24),
            final(cs).satisfied == old(cs).satisfied,
    {
        let c0 = AllocatedFieldElement::alloc_element(cs, &value.c0);
        let c1 = AllocatedFieldElement::alloc_element(cs, &value.c1);
        AllocatedE2Element { c0, c1 }
    }

    /// Extract the plaintext value of a reduced element.
    pub fn to_value(&self) -> (r: Fp2)
        requires
            self.reduced(),
        ensures
            r.wf(),
            r.value() == self.value(),
    {
        Fp2 { c0: self.c0.to_value(), c1: self.c1.to_value() }
    }

    pub fn assert_is_equal(cs: &mut Circuit, a: &Self, b: &Self)
        requires
            a.wf(),
            b.wf(),
        ensures
            final(cs).constraints == count_add(count_add(old(cs).constraints, 13), 13),
            final(cs).satisfied == (old(cs).satisfied && e2_cong(a.value(), b.value())),
    {
        AllocatedFieldElement::assert_is_equal(cs, &a.c0, &b.c0);
        AllocatedFieldElement::assert_is_equal(cs, &a.c1, &b.c1);
    }

    pub fn reduce(&self, cs: &mut Circuit) -> (r: Self)
        requires
            self.wf(),
        ensures
            r.reduced(),
            r.wf(),
            e2_cong(r.value(), self.value()),
            final(cs).constraints == count_add(count_add(old(cs).constraints, 13), 13),
            final(cs).satisfied == old(cs).satisfied,
    {
        let c0 = self.c0.reduce(cs);
        let c1 = self.c1.reduce(cs);
        proof {
            crate::arith::lemma_cong_fpm(self.c0.as_int());
            crate::arith::lemma_cong_fpm(self.c1.as_int());
        }
        AllocatedE2Element { c0, c1 }
    }

    pub fn assert_equality_to_constant(&self, cs: &mut Circuit, constant: &Self)
        requires
            self.reduced(),
            constant.reduced(),
        ensures
            final(cs).constraints == count_add(count_add(old(cs).constraints, 12), 12),
            final(cs).satisfied == (old(cs).satisfied && e2_cong(self.value(), constant.value())),
    {
        self.c0.assert_equality_to_constant(cs, &constant.c0);
        self.c1.assert_equality_to_constant(cs, &constant.c1);
    }

    /// A boolean set exactly when both coordinates' residues are zero.
    pub fn alloc_is_zero(&self, cs: &mut Circuit) -> (r: bool)
        requires
            self.wf(),
        ensures
            r == (fpm(self.value().0) == 0 && fpm(self.value().1) == 0),
            final(cs).constraints == count_add(count_add(count_add(old(cs).constraints, 14), 14), 1),
            final(cs).satisfied == old(cs).satisfied,
    {
        let z0 = self.c0.alloc_is_zero(cs);
        let z1 = self.c1.alloc_is_zero(cs);
        cs.bump(1);
        z0 && z1
    }

    pub fn add(&self, cs: &mut Circuit, value: &Self) -> (r: Self)
        requires
            self.wf(),
            value.wf(),
            self.max_width() <= 124,
            value.max_width() <= 124,
        ensures
            r.wf(),
            r.value() == e2_add(self.value(), value.value()),
            r.max_width() <= imax(self.max_width(), value.max_width()) + 1,
            r.max_len() <= imax(self.max_len(), value.max_len()),
            final(cs).constraints == old(cs).constraints,
            final(cs).satisfied == old(cs).satisfied,
    {
        let c0 = self.c0.add(cs, &value.c0);
        let c1 = self.c1.add(cs, &value.c1);
        AllocatedE2Element { c0, c1 }
    }

    pub fn double(&self, cs: &mut Circuit) -> (r: Self)
        requires
            self.wf(),
            self.max_width() <= 124,
        ensures
            r.wf(),
            r.value() == e2_add(self.value(), self.value()),
            r.max_width() <= self.max_width() + 1,
            r.max_len() <= self.max_len(),
            final(cs).constraints == old(cs).constraints,
            final(cs).satisfied == old(cs).satisfied,
    {
        self.add(cs, self)
    }

    pub fn sub(&self, cs: &mut Circuit, value: &Self) -> (r: Self)
        requires
            self.wf(),
            value.wf(),
            self.max_width() <= 124,
            value.max_width() <= 122,
        ensures
            r.wf(),
            e2_cong(r.value(), e2_sub(self.value(), value.value())),
            r.max_width() <= imax(self.max_width(), value.max_width() + 1) + 1,
            r.max_len() <= imax(imax(self.max_len(), value.max_len()), 12),
            final(cs).constraints == old(cs).constraints,
            final(cs).satisfied == old(cs).satisfied,
    {
        let c0 = self.c0.sub(cs, &value.c0);
        let c1 = self.c1.sub(cs, &value.c1);
        AllocatedE2Element { c0, c1 }
    }

    pub fn neg(&self, cs: &mut Circuit) -> (r: Self)
        requires
            self.wf(),
            self.max_width() <= 122,
        ensures
            r.wf(),
            e2_cong(r.value(), e2_neg(self.value())),
            r.max_width() <= self.max_width() + 2,
            r.max_len() <= imax(self.max_len(), 12),
            final(cs).constraints == old(cs).constraints,
            final(cs).satisfied == old(cs).satisfied,
    {
        let c0 = self.c0.neg(cs);
        let c1 = self.c1.neg(cs);
        AllocatedE2Element { c0, c1 }
    }

    /// Karatsuba multiplication: three base-field multiplications.
    pub fn mul(&self, cs: &mut Circuit, value: &Self) -> (r: Self)
        requires
            self.wf(),
            value.wf(),
            self.max_width() + value.max_width() <= 110,
            self.max_len() <= 24,
            value.max_len() <= 24,
        ensures
            r.wf(),
            e2_cong(r.value(), e2_mul(self.value(), value.value())),
            r.max_width() <= self.max_width() + value.max_width() + 12,
            r.max_len() <= imax(self.max_len() + value.max_len(), 12),
            final(cs).satisfied == old(cs).satisfied,
    {
        let a = self.c0.add(cs, &self.c1);
        let b = value.c0.add(cs, &value.c1);
        let t = a.mul(cs, &b);
        let m = self.c0.mul(cs, &value.c0);
        let n = self.c1.mul(cs, &value.c1);
        let s1 = t.sub(cs, &m);
        let z1 = s1.sub(cs, &n);
        let z0 = m.sub(cs, &n);
        proof {
            let a0 = self.value().0;
            let a1 = self.value().1;
            let b0 = value.value().0;
            let b1 = value.value().1;
            lemma_karatsuba_cross(a0, a1, b0, b1);
            lemma_cong_sub(s1.as_int(), t.as_int() - m.as_int(), n.as_int(), n.as_int());
            lemma_cong_sub(m.as_int(), m.as_int(), n.as_int(), n.as_int());
        }
        AllocatedE2Element { c0: z0, c1: z1 }
    }

    /// Multiplication by the nonresidue `1 + u` of the cubic level.
    pub fn mul_by_nonresidue(&self, cs: &mut Circuit) -> (r: Self)
        requires
            self.wf(),
            self.max_width() <= 122,
        ensures
            r.wf(),
            e2_cong(r.value(), e2_mul_nr(self.value())),
            r.max_width() <= self.max_width() + 2,
            r.max_len() <= imax(self.max_len(), 12),
            final(cs).constraints == old(cs).constraints,
            final(cs).satisfied == old(cs).satisfied,
    {
        let c0 = self.c0.sub(cs, &self.c1);
        let c1 = self.c0.add(cs, &self.c1);
        AllocatedE2Element { c0, c1 }
    }

    /// Conjugation: negate the `u` coordinate.
    pub fn conjugate(&self, cs: &mut Circuit) -> (r: Self)
        requires
            self.wf(),
            self.max_width() <= 122,
        ensures
            r.wf(),
            cong(r.value().0, self.value().0),
            cong(r.value().1, -self.value().1),
            r.max_width() <= self.max_width() + 2,
            r.max_len() <= imax(self.max_len(), 12),
            final(cs).constraints == old(cs).constraints,
            final(cs).satisfied == old(cs).satisfied,
    {
        let c1 = self.c1.neg(cs);
        AllocatedE2Element { c0: self.c0.duplicate(), c1 }
    }

    /// The Karatsuba cross term `(a1+a2)(b1+b2) - t1 - t2`, congruent to
    /// `a1*b2 + a2*b1` when `t1` and `t2` carry the straight products.
    #[verifier::rlimit(60)]
    pub(crate) fn cross_term(
        cs: &mut Circuit,
        a1: &Self,
        a2: &Self,
        b1: &Self,
        b2: &Self,
        t1: &Self,
        t2: &Self,
    ) -> (r: Self)
        requires
            a1.wf(),
            a2.wf(),
            b1.wf(),
            b2.wf(),
            t1.wf(),
            t2.wf(),
            e2_cong(t1.value(), e2_mul(a1.value(), b1.value())),
            e2_cong(t2.value(), e2_mul(a2.value(), b2.value())),
            imax(a1.max_width(), a2.max_width()) + imax(b1.max_width(), b2.max_width()) <= 100,
            t1.max_width() <= 120,
            t2.max_width() <= 120,
            a1.max_len() <= 12,
            a2.max_len() <= 12,
            b1.max_len() <= 12,
            b2.max_len() <= 12,
            t1.max_len() <= 32,
            t2.max_len() <= 32,
        ensures
            r.wf(),
            e2_cong(
                r.value(),
                e2_add(e2_mul(a1.value(), b2.value()), e2_mul(a2.value(), b1.value())),
            ),
            r.max_width() <= imax(
                imax(a1.max_width(), a2.max_width()) + imax(b1.max_width(), b2.max_width()) + 17,
                imax(t1.max_width(), t2.max_width()) + 4,
            ),
            r.max_len() <= 32,
            final(cs).satisfied == old(cs).satisfied,
    {
        let s = a1.add(cs, a2);
        let u = b1.add(cs, b2);
        let m = s.mul(cs, &u);
        let w1 = m.sub(cs, t1);
        let w2 = w1.sub(cs, t2);
        proof {
            lemma_karatsuba_recombine(
                m.value(),
                t1.value(),
                t2.value(),
                w1.value(),
                w2.value(),
                a1.value(),
                b1.value(),
                a2.value(),
                b2.value(),
            );
        }
        w2
    }

    /// An identical copy of this element.
    pub(crate) fn duplicate(&self) -> (r: Self)
        ensures
            r.c0.limbs@ == self.c0.limbs@,
            r.c0.width == self.c0.width,
            r.c1.limbs@ == self.c1.limbs@,
            r.c1.width == self.c1.width,
            r.value() == self.value(),
            r.max_width() == self.max_width(),
            r.max_len() == self.max_len(),
    {
        AllocatedE2Element { c0: self.c0.duplicate(), c1: self.c1.duplicate() }
    }

    /// Choose between two equally shaped elements; the constraint count
    /// depends only on the shape.
    pub fn conditionally_select(cs: &mut Circuit, z0: &Self, z1: &Self, condition: bool) -> (r:
        Self)
        requires
            z0.wf(),
            z1.wf(),
            z0.same_shape(z1),
        ensures
            r.wf(),
            condition ==> r.value() == z0.value(),
            !condition ==> r.value() == z1.value(),
            final(cs).constraints == count_add(
                count_add(old(cs).constraints, z0.c0.limbs@.len() as u64),
                z0.c1.limbs@.len() as u64,
            ),
            final(cs).satisfied == old(cs).satisfied,
    {
        let c0 = AllocatedFieldElement::conditionally_select(cs, &z0.c0, &z1.c0, condition);
        let c1 = AllocatedFieldElement::conditionally_select(cs, &z0.c1, &z1.c1, condition);
        AllocatedE2Element { c0, c1 }
    }
}

/// Off-circuit witness for the inverse of a plaintext quadratic value,
/// computed through the gadgets on a scratch circuit: the conjugate over the
/// norm, with the base-field inverse witnessed by `div_unchecked`.
pub(crate) fn fp2_inv_witness(v: &Fp2) -> (r: Option<Fp2>)
    requires
        v.wf(),
    ensures
        r matches Some(w) ==> w.wf(),
        e2_invertible(v.value()) ==> r is Some,
{
    let mut scratch = Circuit::new();
    let a = AllocatedE2Element::alloc_element(&mut scratch, v);
    let n0 = a.c0.square(&mut scratch);
    let n1 = a.c1.square(&mut scratch);
    let n = n0.add(&mut scratch, &n1);
    let nr = n.reduce(&mut scratch);
    proof {
        assert(n.as_int() == e2_norm(v.value()));
        lemma_invertible_cong(nr.as_int(), e2_norm(v.value()));
    }
    let one = AllocatedFieldElement::one();
    let ninv = match one.div_unchecked(&mut scratch, &nr) {
        Ok(i) => i,
        Err(_) => {
            return None;
        },
    };
    let r0 = a.c0.mul(&mut scratch, &ninv);
    let c1n = a.c1.neg(&mut scratch);
    let c1r = c1n.reduce(&mut scratch);
    let r1 = c1r.mul(&mut scratch, &ninv);
    Some(Fp2 { c0: r0.reduce(&mut scratch).to_value(), c1: r1.reduce(&mut scratch).to_value() })
}

} // verus!
