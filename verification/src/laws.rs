//! General properties of the gadget algebra, stated and proved once over
//! the spec-level values that the operation contracts speak of.

use vstd::prelude::*;
use crate::arith::{
    fpm, cong, e6_sub, e6_cong, e12_mul, e12_add, E12, lemma_fpm_small, lemma_cong_add,
    lemma_e6_mul_comm, lemma_seq_val_inject,
};
use crate::fields::fp::Fp;

verus! {

/// Allocation followed by extraction is the identity on plaintext residues:
/// two canonical values with the same residue hold the same digits, and the
/// contracts of `alloc_element` and `to_value` preserve the residue, so the
/// extracted value is the allocated one, digit for digit.
pub proof fn lemma_allocate_extract_roundtrip(v: Fp, w: Fp)
    requires
        v.wf(),
        w.wf(),
        w.spec_val() == v.spec_val(),
    ensures
        w.limbs@ == v.limbs@,
{
    lemma_seq_val_inject(
        v.limbs@.map(|_j: int, x: u32| x as nat),
        w.limbs@.map(|_j: int, x: u32| x as nat),
    );
    assert forall|i: int| 0 <= i < v.limbs@.len() implies v.limbs@[i] == w.limbs@[i] by {
        assert(v.limbs@.map(|_j: int, x: u32| x as nat)[i] == w.limbs@.map(
            |_j: int, x: u32| x as nat,
        )[i]);
    }
    assert(v.limbs@ =~= w.limbs@);
}

/// The sum of a value and its additive inverse zero-tests true: whatever the
/// negation gadget returned, its congruence contract forces the sum's
/// residue to vanish, which is exactly what the zero test reports.
pub proof fn lemma_add_neg_zero_test(a: int, n: int, s: int)
    requires
        cong(n, -a),
        s == a + n,
    ensures
        fpm(s) == 0,
{
    lemma_cong_add(a, a, n, -a);
    lemma_fpm_small(0);
}

/// Subtracting a sextic value from itself zero-tests true in every
/// coordinate: the subtraction contract forces each coordinate's residue
/// difference to vanish.
pub proof fn lemma_sub_self_zero_test(d: E12, x: E12)
    requires
        e6_cong(d.0, e6_sub(x.0, x.0)),
        e6_cong(d.1, e6_sub(x.1, x.1)),
    ensures
        fpm(d.0.0.0) == 0,
        fpm(d.0.0.1) == 0,
        fpm(d.0.1.0) == 0,
        fpm(d.0.1.1) == 0,
        fpm(d.0.2.0) == 0,
        fpm(d.0.2.1) == 0,
        fpm(d.1.0.0) == 0,
        fpm(d.1.0.1) == 0,
        fpm(d.1.1.0) == 0,
        fpm(d.1.1.1) == 0,
        fpm(d.1.2.0) == 0,
        fpm(d.1.2.1) == 0,
{
    lemma_fpm_small(0);
}

/// Sextic multiplication is commutative, so the gadget product of `a` and
/// `b` is congruent to that of `b` and `a`.
pub proof fn lemma_e12_mul_comm(a: E12, b: E12)
    ensures
        e12_mul(a, b) == e12_mul(b, a),
{
    lemma_e6_mul_comm(a.0, b.0);
    lemma_e6_mul_comm(a.1, b.1);
    lemma_e6_mul_comm(a.0, b.1);
    lemma_e6_mul_comm(a.1, b.0);
}

/// Sextic addition is commutative.
pub proof fn lemma_e12_add_comm(a: E12, b: E12)
    ensures
        e12_add(a, b) == e12_add(b, a),
{
}

/// Sextic addition is associative.
pub proof fn lemma_e12_add_assoc(a: E12, b: E12, c: E12)
    ensures
        e12_add(e12_add(a, b), c) == e12_add(a, e12_add(b, c)),
{
}

} // verus!
