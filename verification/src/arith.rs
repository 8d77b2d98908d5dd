//! Mathematical model: limb sequences as natural numbers, arithmetic modulo
//! the BLS12-381 base-field prime, and the tower-field operations expressed
//! as exact integer polynomials together with a congruence relation.

use vstd::prelude::*;
use vstd::arithmetic::power2::*;
use vstd::arithmetic::div_mod::*;
use vstd::arithmetic::mul::*;

verus! {

/// The BLS12-381 base-field prime.
pub open spec fn fp_modulus() -> nat {
    0x1a0111ea397fe69a4b1ba7b6434bacd764774b84f38512bf6730d2a0f6b0f6241eabfffeb153ffffb9feffffffffaaabnat
}

/// A primitive cube root of unity in the base field, used by the G1
/// endomorphism: multiplying the x-coordinate by it maps a curve point to
/// another curve point.
pub open spec fn endo_beta() -> nat {
    0x5f19672fdf76ce51ba69c6076a0f77eaddb3a93be6f89688de17d813620a00022e01fffffffefffenat
}

/// Residue of an integer modulo the base-field prime (Euclidean, in `[0, p)`).
pub open spec fn fpm(x: int) -> int {
    x % (fp_modulus() as int)
}

/// Congruence modulo the base-field prime.
pub open spec fn cong(x: int, y: int) -> bool {
    fpm(x) == fpm(y)
}

/// Value of a limb sequence in radix `2^32`, least-significant limb first.
/// Limbs may individually exceed the radix (lazy, unreduced form).
pub open spec fn seq_val(s: Seq<nat>) -> nat
    decreases s.len(),
{
    if s.len() == 0 {
        0
    } else {
        s[0] + 0x1_0000_0000 * seq_val(s.skip(1))
    }
}

/// Value of a vector of wide (possibly unreduced) limbs.
pub open spec fn limbs_val(s: Seq<u128>) -> nat {
    seq_val(s.map(|_i: int, x: u128| x as nat))
}

/// Value of a vector of proper base-`2^32` digits.
pub open spec fn digits_val(s: Seq<u32>) -> nat {
    seq_val(s.map(|_i: int, x: u32| x as nat))
}

/// `1 + 2^32 + ... + 2^(32(n-1))`, the all-ones limb pattern.
pub open spec fn ones_val(n: nat) -> nat
    decreases n,
{
    if n == 0 {
        0
    } else {
        1 + 0x1_0000_0000 * ones_val((n - 1) as nat)
    }
}

pub proof fn lemma_pow2_32_table()
    ensures
        pow2(0) == 1,
        pow2(32) == 0x1_0000_0000,
        pow2(64) == 0x1_0000_0000_0000_0000nat,
        pow2(96) == 0x1_000000000000000000000000nat,
        pow2(128) == 0x1_00000000000000000000000000000000nat,
        pow2(160) == 0x1_0000000000000000000000000000000000000000nat,
        pow2(192) == 0x1_000000000000000000000000000000000000000000000000nat,
        pow2(224) == 0x1_00000000000000000000000000000000000000000000000000000000nat,
        pow2(256) == 0x1_0000000000000000000000000000000000000000000000000000000000000000nat,
        pow2(288) == 0x1_000000000000000000000000000000000000000000000000000000000000000000000000nat,
        pow2(320) == 0x1_00000000000000000000000000000000000000000000000000000000000000000000000000000000nat,
        pow2(352) == 0x1_0000000000000000000000000000000000000000000000000000000000000000000000000000000000000000nat,
        pow2(384) == 0x1_000000000000000000000000000000000000000000000000000000000000000000000000000000000000000000000000nat,
{
    lemma2_to64();
    lemma_pow2_adds(64, 32);
    lemma_pow2_adds(96, 32);
    lemma_pow2_adds(128, 32);
    lemma_pow2_adds(160, 32);
    lemma_pow2_adds(192, 32);
    lemma_pow2_adds(224, 32);
    lemma_pow2_adds(256, 32);
    lemma_pow2_adds(288, 32);
    lemma_pow2_adds(320, 32);
    lemma_pow2_adds(352, 32);
}

/// Appending a limb adds its value scaled by the radix power of the old length.
pub proof fn lemma_seq_val_snoc(s: Seq<nat>, d: nat)
    ensures
        seq_val(s.push(d)) == seq_val(s) + d * pow2(32 * s.len()),
    decreases s.len(),
{
    reveal_with_fuel(seq_val, 3);
    if s.len() == 0 {
        assert(s.push(d).skip(1) =~= Seq::<nat>::empty());
        assert(seq_val(s.push(d)) == d);
        lemma_pow2_32_table();
    } else {
        assert(s.push(d).skip(1) =~= s.skip(1).push(d));
        lemma_seq_val_snoc(s.skip(1), d);
        lemma_pow2_adds(32, 32 * (s.len() - 1) as nat);
        assert(seq_val(s.push(d)) == s[0] + 0x1_0000_0000 * (seq_val(s.skip(1)) + d * pow2(
            32 * (s.len() - 1) as nat,
        )));
        assert(0x1_0000_0000 * (seq_val(s.skip(1)) + d * pow2(32 * (s.len() - 1) as nat))
            == 0x1_0000_0000 * seq_val(s.skip(1)) + 0x1_0000_0000 * (d * pow2(
            32 * (s.len() - 1) as nat,
        ))) by (nonlinear_arith);
        assert(0x1_0000_0000 * (d * pow2(32 * (s.len() - 1) as nat)) == d * (0x1_0000_0000 * pow2(
            32 * (s.len() - 1) as nat,
        ))) by (nonlinear_arith);
        assert(pow2(32) == 0x1_0000_0000) by { lemma_pow2_32_table() };
    }
}

/// Splitting a limb sequence splits its value at the matching radix power.
pub proof fn lemma_seq_val_split(s: Seq<nat>, k: int)
    requires
        0 <= k <= s.len(),
    ensures
        seq_val(s) == seq_val(s.take(k)) + pow2((32 * k) as nat) * seq_val(s.skip(k)),
    decreases k,
{
    reveal_with_fuel(seq_val, 3);
    if k == 0 {
        assert(s.take(0) =~= Seq::<nat>::empty());
        assert(s.skip(0) =~= s);
        lemma_pow2_32_table();
    } else {
        lemma_seq_val_split(s.skip(1), k - 1);
        assert(s.take(k).skip(1) =~= s.skip(1).take(k - 1));
        assert(s.skip(1).skip(k - 1) =~= s.skip(k));
        assert(seq_val(s) == s[0] + 0x1_0000_0000 * seq_val(s.skip(1)));
        assert(seq_val(s.take(k)) == s[0] + 0x1_0000_0000 * seq_val(s.skip(1).take(k - 1)));
        lemma_pow2_adds(32, (32 * (k - 1)) as nat);
        assert(0x1_0000_0000 * (seq_val(s.skip(1).take(k - 1)) + pow2((32 * (k - 1)) as nat)
            * seq_val(s.skip(k))) == 0x1_0000_0000 * seq_val(s.skip(1).take(k - 1)) + (0x1_0000_0000
            * pow2((32 * (k - 1)) as nat)) * seq_val(s.skip(k))) by (nonlinear_arith);
        assert(pow2(32) == 0x1_0000_0000) by { lemma_pow2_32_table() };
        assert(pow2((32 * k) as nat) == 0x1_0000_0000 * pow2((32 * (k - 1)) as nat));
        assert(seq_val(s.skip(1)) == seq_val(s.skip(1).take(k - 1)) + pow2((32 * (k - 1)) as nat)
            * seq_val(s.skip(k)));
    }
}

/// Adding to one limb adds its contribution scaled by the radix power.
pub proof fn lemma_seq_val_update(s: Seq<nat>, k: int, v: nat)
    requires
        0 <= k < s.len(),
    ensures
        seq_val(s.update(k, v)) == seq_val(s) - s[k] * pow2((32 * k) as nat) + v * pow2(
            (32 * k) as nat,
        ),
    decreases k,
{
    reveal_with_fuel(seq_val, 3);
    if k == 0 {
        assert(s.update(0, v).skip(1) =~= s.skip(1));
        lemma_pow2_32_table();
    } else {
        lemma_seq_val_update(s.skip(1), k - 1, v);
        assert(s.update(k, v).skip(1) =~= s.skip(1).update(k - 1, v));
        lemma_pow2_adds(32, (32 * (k - 1)) as nat);
        let w = pow2((32 * (k - 1)) as nat);
        let srest = seq_val(s.skip(1));
        let old_d = s[k];
        assert(seq_val(s.skip(1).update(k - 1, v)) == srest - old_d * w + v * w);
        assert(0x1_0000_0000 * (srest - old_d * w + v * w) == 0x1_0000_0000 * srest - old_d * (
        0x1_0000_0000 * w) + v * (0x1_0000_0000 * w)) by (nonlinear_arith);
        assert(pow2(32) == 0x1_0000_0000) by { lemma_pow2_32_table() };
        assert(seq_val(s.update(k, v)) == s[0] + 0x1_0000_0000 * seq_val(
            s.skip(1).update(k - 1, v),
        ));
        assert(seq_val(s) == s[0] + 0x1_0000_0000 * srest);
        assert(pow2((32 * k) as nat) == 0x1_0000_0000 * w);
    }
}

/// A sequence of proper digits is bounded by the radix power of its length.
pub proof fn lemma_seq_val_digits_bound(s: Seq<nat>)
    requires
        forall|i: int| 0 <= i < s.len() ==> s[i] < 0x1_0000_0000,
    ensures
        seq_val(s) < pow2(32 * s.len()),
    decreases s.len(),
{
    lemma_pow2_32_table();
    if s.len() == 0 {
    } else {
        lemma_seq_val_digits_bound(s.skip(1));
        lemma_pow2_adds(32, 32 * (s.len() - 1) as nat);
        let b = pow2(32 * (s.len() - 1) as nat);
        assert(seq_val(s.skip(1)) <= b - 1);
        assert(0x1_0000_0000 * seq_val(s.skip(1)) <= 0x1_0000_0000 * (b - 1)) by (nonlinear_arith)
            requires seq_val(s.skip(1)) <= b - 1;
    }
}

/// A zero limb sequence has value zero.
pub proof fn lemma_seq_val_zero(s: Seq<nat>)
    requires
        forall|i: int| 0 <= i < s.len() ==> s[i] == 0,
    ensures
        seq_val(s) == 0,
    decreases s.len(),
{
    if s.len() > 0 {
        lemma_seq_val_zero(s.skip(1));
    }
}

proof fn lemma_seq_val_le_ones(s: Seq<nat>, w: nat)
    requires
        forall|i: int| 0 <= i < s.len() ==> s[i] < pow2(w),
    ensures
        seq_val(s) <= (pow2(w) - 1) * ones_val(s.len()),
    decreases s.len(),
{
    lemma_pow2_pos(w);
    if s.len() == 0 {
    } else {
        lemma_seq_val_le_ones(s.skip(1), w);
        let pw = pow2(w) as int;
        let rest = seq_val(s.skip(1)) as int;
        let on = ones_val((s.len() - 1) as nat) as int;
        assert(rest <= (pw - 1) * on);
        assert(0x1_0000_0000 * rest <= 0x1_0000_0000 * ((pw - 1) * on)) by (nonlinear_arith)
            requires rest <= (pw - 1) * on;
        assert((pw - 1) + 0x1_0000_0000 * ((pw - 1) * on) == (pw - 1) * (1 + 0x1_0000_0000 * on))
            by (nonlinear_arith);
    }
}

proof fn lemma_ones_val_bound(n: nat)
    requires
        n >= 1,
    ensures
        ones_val(n) <= 2 * pow2((32 * (n - 1)) as nat) - 1,
    decreases n,
{
    reveal_with_fuel(ones_val, 3);
    lemma_pow2_32_table();
    if n == 1 {
    } else {
        lemma_ones_val_bound((n - 1) as nat);
        lemma_pow2_adds(32, (32 * (n - 2)) as nat);
        let b = pow2((32 * (n - 2)) as nat) as int;
        assert(ones_val((n - 1) as nat) <= 2 * b - 1);
        assert(0x1_0000_0000 * ones_val((n - 1) as nat) <= 0x1_0000_0000 * (2 * b - 1))
            by (nonlinear_arith)
            requires ones_val((n - 1) as nat) <= 2 * b - 1;
        assert(0x1_0000_0000 * (2 * b - 1) == 2 * (0x1_0000_0000 * b) - 0x1_0000_0000)
            by (nonlinear_arith);
    }
}

/// Limbs each below `2^w` bound the value by `2^(w + 32(len-1) + 1)`.
pub proof fn lemma_seq_val_wide_bound(s: Seq<nat>, w: nat)
    requires
        s.len() >= 1,
        forall|i: int| 0 <= i < s.len() ==> s[i] < pow2(w),
    ensures
        seq_val(s) < pow2((w + 32 * (s.len() - 1) + 1) as nat),
{
    lemma_seq_val_le_ones(s, w);
    lemma_ones_val_bound(s.len());
    let pw = pow2(w) as int;
    let on = ones_val(s.len()) as int;
    let b = pow2((32 * (s.len() - 1)) as nat) as int;
    lemma_pow2_pos(w);
    lemma_pow2_pos((32 * (s.len() - 1)) as nat);
    assert((pw - 1) * on <= (pw - 1) * (2 * b - 1)) by (nonlinear_arith)
        requires on <= 2 * b - 1, pw >= 1;
    assert((pw - 1) * (2 * b - 1) < pw * (2 * b)) by (nonlinear_arith)
        requires pw >= 1, b >= 1;
    lemma_pow2_adds(w, (32 * (s.len() - 1)) as nat);
    lemma_pow2_adds((w + 32 * (s.len() - 1)) as nat, 1);
    lemma_pow2_32_table();
    lemma2_to64();
    assert(pow2(1) == 2);
    assert(pw * (2 * b) == 2 * (pw * b)) by (nonlinear_arith);
}

/// Two proper-digit sequences of equal length and equal value are equal.
pub proof fn lemma_seq_val_inject(s: Seq<nat>, t: Seq<nat>)
    requires
        s.len() == t.len(),
        forall|i: int| 0 <= i < s.len() ==> s[i] < 0x1_0000_0000,
        forall|i: int| 0 <= i < t.len() ==> t[i] < 0x1_0000_0000,
        seq_val(s) == seq_val(t),
    ensures
        s =~= t,
    decreases s.len(),
{
    if s.len() > 0 {
        assert(s[0] + 0x1_0000_0000 * seq_val(s.skip(1)) == t[0] + 0x1_0000_0000 * seq_val(
            t.skip(1),
        ));
        lemma_seq_val_inject(s.skip(1), t.skip(1));
        assert(forall|i: int| 1 <= i < s.len() ==> s[i] == s.skip(1)[i - 1] && t[i] == t.skip(1)[i
            - 1]);
    }
}

/// One more limb extends a prefix value at the matching radix power.
pub proof fn lemma_limbs_val_take_succ(s: Seq<u128>, i: int)
    requires
        0 <= i < s.len(),
    ensures
        limbs_val(s.take(i + 1)) == limbs_val(s.take(i)) + s[i] * pow2((32 * i) as nat),
{
    assert(s.take(i + 1).map(|_j: int, x: u128| x as nat) =~= s.take(i).map(
        |_j: int, x: u128| x as nat,
    ).push(s[i] as nat));
    lemma_seq_val_snoc(s.take(i).map(|_j: int, x: u128| x as nat), s[i] as nat);
}

/// Appending a limb adds its value at the radix power of the old length.
pub proof fn lemma_limbs_val_snoc(s: Seq<u128>, d: u128)
    ensures
        limbs_val(s.push(d)) == limbs_val(s) + d * pow2(32 * s.len()),
{
    assert(s.push(d).map(|_j: int, x: u128| x as nat) =~= s.map(|_j: int, x: u128| x as nat).push(
        d as nat,
    ));
    lemma_seq_val_snoc(s.map(|_j: int, x: u128| x as nat), d as nat);
}

/// Replacing one limb shifts the value by the difference at its radix power.
pub proof fn lemma_limbs_val_update(s: Seq<u128>, k: int, v: u128)
    requires
        0 <= k < s.len(),
    ensures
        limbs_val(s.update(k, v)) == limbs_val(s) - s[k] * pow2((32 * k) as nat) + v * pow2(
            (32 * k) as nat,
        ),
{
    assert(s.update(k, v).map(|_j: int, x: u128| x as nat) =~= s.map(
        |_j: int, x: u128| x as nat,
    ).update(k, v as nat));
    lemma_seq_val_update(s.map(|_j: int, x: u128| x as nat), k, v as nat);
}

/// One more digit extends a prefix value at the matching radix power.
pub proof fn lemma_digits_val_take_succ(s: Seq<u32>, i: int)
    requires
        0 <= i < s.len(),
    ensures
        digits_val(s.take(i + 1)) == digits_val(s.take(i)) + s[i] * pow2((32 * i) as nat),
{
    assert(s.take(i + 1).map(|_j: int, x: u32| x as nat) =~= s.take(i).map(
        |_j: int, x: u32| x as nat,
    ).push(s[i] as nat));
    lemma_seq_val_snoc(s.take(i).map(|_j: int, x: u32| x as nat), s[i] as nat);
}

/// The larger of two integers.
pub open spec fn imax(a: int, b: int) -> int {
    if a >= b {
        a
    } else {
        b
    }
}

/// `pow2` is monotone.
pub proof fn lemma_pow2_le(e1: nat, e2: nat)
    requires
        e1 <= e2,
    ensures
        pow2(e1) <= pow2(e2),
{
    if e1 < e2 {
        lemma_pow2_strictly_increases(e1, e2);
    }
}

/// Residues lie in `[0, p)`.
pub proof fn lemma_fpm_range(x: int)
    ensures
        0 <= fpm(x) < fp_modulus(),
{
    lemma_mod_division_less_than_divisor(x, fp_modulus() as int);
}

/// Small nonnegative values are their own residue.
pub proof fn lemma_fpm_small(x: int)
    requires
        0 <= x < fp_modulus(),
    ensures
        fpm(x) == x,
{
    lemma_small_mod(x as nat, fp_modulus());
}

/// Taking a residue is idempotent up to congruence.
pub proof fn lemma_cong_fpm(x: int)
    ensures
        cong(fpm(x), x),
{
    lemma_mod_twice(x, fp_modulus() as int);
}

/// Congruence is preserved by addition.
pub proof fn lemma_cong_add(a: int, b: int, c: int, d: int)
    requires
        cong(a, b),
        cong(c, d),
    ensures
        cong(a + c, b + d),
{
    lemma_add_mod_noop(a, c, fp_modulus() as int);
    lemma_add_mod_noop(b, d, fp_modulus() as int);
}

/// Congruence is preserved by subtraction.
pub proof fn lemma_cong_sub(a: int, b: int, c: int, d: int)
    requires
        cong(a, b),
        cong(c, d),
    ensures
        cong(a - c, b - d),
{
    lemma_sub_mod_noop(a, c, fp_modulus() as int);
    lemma_sub_mod_noop(b, d, fp_modulus() as int);
}

/// Congruence is preserved by multiplication.
pub proof fn lemma_cong_mul(a: int, b: int, c: int, d: int)
    requires
        cong(a, b),
        cong(c, d),
    ensures
        cong(a * c, b * d),
{
    lemma_mul_mod_noop_general(a, c, fp_modulus() as int);
    lemma_mul_mod_noop_general(b, d, fp_modulus() as int);
}

/// Multiples of the prime vanish under congruence.
pub proof fn lemma_cong_add_multiple(a: int, k: int)
    ensures
        cong(a + k * fp_modulus(), a),
{
    lemma_mod_multiples_vanish(k, a, fp_modulus() as int);
}

// ---------------------------------------------------------------------------
// Tower-field values, as exact integer polynomials.  A quadratic value is a
// pair `c0 + c1*u` with `u^2 = -1`; a cubic value is a triple `b0 + b1*v +
// b2*v^2` over the quadratic field with `v^3 = 1 + u`; a sextic value is a
// pair `c0 + c1*w` over the cubic field with `w^2 = v`.  The operations are
// stated without interior reduction; gadget contracts relate their results to
// these polynomials through componentwise congruence.
// ---------------------------------------------------------------------------

pub open spec fn e2_add(a: (int, int), b: (int, int)) -> (int, int) {
    (a.0 + b.0, a.1 + b.1)
}

pub open spec fn e2_sub(a: (int, int), b: (int, int)) -> (int, int) {
    (a.0 - b.0, a.1 - b.1)
}

pub open spec fn e2_neg(a: (int, int)) -> (int, int) {
    (-a.0, -a.1)
}

pub open spec fn e2_mul(a: (int, int), b: (int, int)) -> (int, int) {
    (a.0 * b.0 - a.1 * b.1, a.0 * b.1 + a.1 * b.0)
}

/// Multiplication by the quadratic nonresidue `1 + u`.
pub open spec fn e2_mul_nr(a: (int, int)) -> (int, int) {
    (a.0 - a.1, a.0 + a.1)
}

pub open spec fn e2_zero() -> (int, int) {
    (0, 0)
}

pub open spec fn e2_one() -> (int, int) {
    (1, 0)
}

/// Componentwise congruence of quadratic values.
pub open spec fn e2_cong(a: (int, int), b: (int, int)) -> bool {
    cong(a.0, b.0) && cong(a.1, b.1)
}

pub open spec fn e6_add(a: E6, b: E6) -> E6 {
    (e2_add(a.0, b.0), e2_add(a.1, b.1), e2_add(a.2, b.2))
}

pub open spec fn e6_sub(a: E6, b: E6) -> E6 {
    (e2_sub(a.0, b.0), e2_sub(a.1, b.1), e2_sub(a.2, b.2))
}

pub open spec fn e6_neg(a: E6) -> E6 {
    (e2_neg(a.0), e2_neg(a.1), e2_neg(a.2))
}

/// A cubic (three quadratic coefficients) tower value.
pub type E6 = ((int, int), (int, int), (int, int));

/// A sextic (two cubic coefficients) tower value.
pub type E12 = (E6, E6);

/// Schoolbook product of cubic values, with `v^3` folded to the nonresidue.
pub open spec fn e6_mul(a: E6, b: E6) -> E6 {
    (
        e2_add(e2_mul(a.0, b.0), e2_mul_nr(e2_add(e2_mul(a.1, b.2), e2_mul(a.2, b.1)))),
        e2_add(e2_add(e2_mul(a.0, b.1), e2_mul(a.1, b.0)), e2_mul_nr(e2_mul(a.2, b.2))),
        e2_add(e2_add(e2_mul(a.0, b.2), e2_mul(a.2, b.0)), e2_mul(a.1, b.1)),
    )
}

/// Multiplication by `v`, the cubic layer's image of the sextic nonresidue.
pub open spec fn e6_mul_nr(a: E6) -> E6 {
    (e2_mul_nr(a.2), a.0, a.1)
}

pub open spec fn e6_zero() -> E6 {
    (e2_zero(), e2_zero(), e2_zero())
}

pub open spec fn e6_one() -> E6 {
    (e2_one(), e2_zero(), e2_zero())
}

pub open spec fn e6_cong(a: E6, b: E6) -> bool {
    e2_cong(a.0, b.0) && e2_cong(a.1, b.1) && e2_cong(a.2, b.2)
}

pub open spec fn e12_add(a: E12, b: E12) -> E12 {
    (e6_add(a.0, b.0), e6_add(a.1, b.1))
}

pub open spec fn e12_sub(a: E12, b: E12) -> E12 {
    (e6_sub(a.0, b.0), e6_sub(a.1, b.1))
}

/// Product of sextic values: `(x0 + x1 w)(y0 + y1 w)` with `w^2 = v`.
pub open spec fn e12_mul(a: E12, b: E12) -> E12 {
    (e6_add(e6_mul(a.0, b.0), e6_mul_nr(e6_mul(a.1, b.1))), e6_add(
        e6_mul(a.0, b.1),
        e6_mul(a.1, b.0),
    ))
}

/// Conjugation over the sextic layer: negate the odd coefficient.
pub open spec fn e12_conj(a: E12) -> E12 {
    (a.0, e6_neg(a.1))
}

pub open spec fn e12_zero() -> E12 {
    (e6_zero(), e6_zero())
}

pub open spec fn e12_one() -> E12 {
    (e6_one(), e6_zero())
}

pub open spec fn e12_cong(a: E12, b: E12) -> bool {
    e6_cong(a.0, b.0) && e6_cong(a.1, b.1)
}

// ---------------------------------------------------------------------------
// Congruence respects each tower operation.
// ---------------------------------------------------------------------------

pub proof fn lemma_e2_cong_add(a: (int, int), b: (int, int), c: (int, int), d: (int, int))
    requires
        e2_cong(a, b),
        e2_cong(c, d),
    ensures
        e2_cong(e2_add(a, c), e2_add(b, d)),
{
    lemma_cong_add(a.0, b.0, c.0, d.0);
    lemma_cong_add(a.1, b.1, c.1, d.1);
}

pub proof fn lemma_e2_cong_sub(a: (int, int), b: (int, int), c: (int, int), d: (int, int))
    requires
        e2_cong(a, b),
        e2_cong(c, d),
    ensures
        e2_cong(e2_sub(a, c), e2_sub(b, d)),
{
    lemma_cong_sub(a.0, b.0, c.0, d.0);
    lemma_cong_sub(a.1, b.1, c.1, d.1);
}

pub proof fn lemma_e2_cong_neg(a: (int, int), b: (int, int))
    requires
        e2_cong(a, b),
    ensures
        e2_cong(e2_neg(a), e2_neg(b)),
{
    lemma_cong_sub(0, 0, a.0, b.0);
    lemma_cong_sub(0, 0, a.1, b.1);
}

pub proof fn lemma_e2_cong_mul(a: (int, int), b: (int, int), c: (int, int), d: (int, int))
    requires
        e2_cong(a, b),
        e2_cong(c, d),
    ensures
        e2_cong(e2_mul(a, c), e2_mul(b, d)),
{
    lemma_cong_mul(a.0, b.0, c.0, d.0);
    lemma_cong_mul(a.1, b.1, c.1, d.1);
    lemma_cong_mul(a.0, b.0, c.1, d.1);
    lemma_cong_mul(a.1, b.1, c.0, d.0);
    lemma_cong_sub(a.0 * c.0, b.0 * d.0, a.1 * c.1, b.1 * d.1);
    lemma_cong_add(a.0 * c.1, b.0 * d.1, a.1 * c.0, b.1 * d.0);
}

pub proof fn lemma_e2_cong_mul_nr(a: (int, int), b: (int, int))
    requires
        e2_cong(a, b),
    ensures
        e2_cong(e2_mul_nr(a), e2_mul_nr(b)),
{
    lemma_cong_sub(a.0, b.0, a.1, b.1);
    lemma_cong_add(a.0, b.0, a.1, b.1);
}

/// The Karatsuba cross identity at the quadratic level: the product of sums
/// minus the two straight products is the pair of cross products.
#[verifier::rlimit(100)]
#[verifier::spinoff_prover]
pub proof fn lemma_e2_mul_cross(a: (int, int), b: (int, int), c: (int, int), d: (int, int))
    ensures
        e2_sub(e2_sub(e2_mul(e2_add(a, c), e2_add(b, d)), e2_mul(a, b)), e2_mul(c, d)) == e2_add(
            e2_mul(a, d),
            e2_mul(c, b),
        ),
{
    let a0 = a.0;
    let a1 = a.1;
    let b0 = b.0;
    let b1 = b.1;
    let c0 = c.0;
    let c1 = c.1;
    let d0 = d.0;
    let d1 = d.1;
    assert((a0 + c0) * (b0 + d0) - (a1 + c1) * (b1 + d1) - (a0 * b0 - a1 * b1) - (c0 * d0 - c1
        * d1) == (a0 * d0 - a1 * d1) + (c0 * b0 - c1 * b1)) by (nonlinear_arith);
    assert((a0 + c0) * (b1 + d1) + (a1 + c1) * (b0 + d0) - (a0 * b1 + a1 * b0) - (c0 * d1 + c1
        * d0) == (a0 * d1 + a1 * d0) + (c0 * b1 + c1 * b0)) by (nonlinear_arith);
}

/// The Karatsuba recombination under congruence: subtracting the two
/// straight products from the congruent product of sums leaves the cross
/// terms.
pub proof fn lemma_karatsuba_recombine(
    m: (int, int),
    t1: (int, int),
    t2: (int, int),
    w1: (int, int),
    w2: (int, int),
    a1: (int, int),
    b1: (int, int),
    a2: (int, int),
    b2: (int, int),
)
    requires
        e2_cong(m, e2_mul(e2_add(a1, a2), e2_add(b1, b2))),
        e2_cong(t1, e2_mul(a1, b1)),
        e2_cong(t2, e2_mul(a2, b2)),
        e2_cong(w1, e2_sub(m, t1)),
        e2_cong(w2, e2_sub(w1, t2)),
    ensures
        e2_cong(w2, e2_add(e2_mul(a1, b2), e2_mul(a2, b1))),
{
    lemma_e2_cong_sub(m, e2_mul(e2_add(a1, a2), e2_add(b1, b2)), t1, e2_mul(a1, b1));
    lemma_e2_cong_sub(
        w1,
        e2_sub(e2_mul(e2_add(a1, a2), e2_add(b1, b2)), e2_mul(a1, b1)),
        t2,
        e2_mul(a2, b2),
    );
    lemma_e2_mul_cross(a1, b1, a2, b2);
}

/// Multiplying by the zero pair gives the zero pair.
pub proof fn lemma_e2_mul_zero(a: (int, int))
    ensures
        e2_mul(a, e2_zero()) == e2_zero(),
        e2_mul(e2_zero(), a) == e2_zero(),
{
    assert(a.0 * 0 == 0) by (nonlinear_arith);
    assert(a.1 * 0 == 0) by (nonlinear_arith);
    assert(0 * a.0 == 0) by (nonlinear_arith);
    assert(0 * a.1 == 0) by (nonlinear_arith);
}

/// Multiplication at the quadratic level distributes over addition.
pub proof fn lemma_e2_mul_dist_left(a: (int, int), b: (int, int), c: (int, int))
    ensures
        e2_mul(e2_add(a, b), c) == e2_add(e2_mul(a, c), e2_mul(b, c)),
{
    assert((a.0 + b.0) * c.0 - (a.1 + b.1) * c.1 == (a.0 * c.0 - a.1 * c.1) + (b.0 * c.0 - b.1
        * c.1)) by (nonlinear_arith);
    assert((a.0 + b.0) * c.1 + (a.1 + b.1) * c.0 == (a.0 * c.1 + a.1 * c.0) + (b.0 * c.1 + b.1
        * c.0)) by (nonlinear_arith);
}

pub proof fn lemma_e6_cong_add(a: E6, b: E6, c: E6, d: E6)
    requires
        e6_cong(a, b),
        e6_cong(c, d),
    ensures
        e6_cong(e6_add(a, c), e6_add(b, d)),
{
    lemma_e2_cong_add(a.0, b.0, c.0, d.0);
    lemma_e2_cong_add(a.1, b.1, c.1, d.1);
    lemma_e2_cong_add(a.2, b.2, c.2, d.2);
}

pub proof fn lemma_e6_cong_sub(a: E6, b: E6, c: E6, d: E6)
    requires
        e6_cong(a, b),
        e6_cong(c, d),
    ensures
        e6_cong(e6_sub(a, c), e6_sub(b, d)),
{
    lemma_e2_cong_sub(a.0, b.0, c.0, d.0);
    lemma_e2_cong_sub(a.1, b.1, c.1, d.1);
    lemma_e2_cong_sub(a.2, b.2, c.2, d.2);
}

pub proof fn lemma_e6_cong_neg(a: E6, b: E6)
    requires
        e6_cong(a, b),
    ensures
        e6_cong(e6_neg(a), e6_neg(b)),
{
    lemma_e2_cong_neg(a.0, b.0);
    lemma_e2_cong_neg(a.1, b.1);
    lemma_e2_cong_neg(a.2, b.2);
}

pub proof fn lemma_e6_cong_mul(a: E6, b: E6, c: E6, d: E6)
    requires
        e6_cong(a, b),
        e6_cong(c, d),
    ensures
        e6_cong(e6_mul(a, c), e6_mul(b, d)),
{
    lemma_e2_cong_mul(a.0, b.0, c.0, d.0);
    lemma_e2_cong_mul(a.1, b.1, c.2, d.2);
    lemma_e2_cong_mul(a.2, b.2, c.1, d.1);
    lemma_e2_cong_add(e2_mul(a.1, c.2), e2_mul(b.1, d.2), e2_mul(a.2, c.1), e2_mul(b.2, d.1));
    lemma_e2_cong_mul_nr(
        e2_add(e2_mul(a.1, c.2), e2_mul(a.2, c.1)),
        e2_add(e2_mul(b.1, d.2), e2_mul(b.2, d.1)),
    );
    lemma_e2_cong_add(
        e2_mul(a.0, c.0),
        e2_mul(b.0, d.0),
        e2_mul_nr(e2_add(e2_mul(a.1, c.2), e2_mul(a.2, c.1))),
        e2_mul_nr(e2_add(e2_mul(b.1, d.2), e2_mul(b.2, d.1))),
    );
    lemma_e2_cong_mul(a.0, b.0, c.1, d.1);
    lemma_e2_cong_mul(a.1, b.1, c.0, d.0);
    lemma_e2_cong_add(e2_mul(a.0, c.1), e2_mul(b.0, d.1), e2_mul(a.1, c.0), e2_mul(b.1, d.0));
    lemma_e2_cong_mul(a.2, b.2, c.2, d.2);
    lemma_e2_cong_mul_nr(e2_mul(a.2, c.2), e2_mul(b.2, d.2));
    lemma_e2_cong_add(
        e2_add(e2_mul(a.0, c.1), e2_mul(a.1, c.0)),
        e2_add(e2_mul(b.0, d.1), e2_mul(b.1, d.0)),
        e2_mul_nr(e2_mul(a.2, c.2)),
        e2_mul_nr(e2_mul(b.2, d.2)),
    );
    lemma_e2_cong_mul(a.0, b.0, c.2, d.2);
    lemma_e2_cong_mul(a.2, b.2, c.0, d.0);
    lemma_e2_cong_add(e2_mul(a.0, c.2), e2_mul(b.0, d.2), e2_mul(a.2, c.0), e2_mul(b.2, d.0));
    lemma_e2_cong_mul(a.1, b.1, c.1, d.1);
    lemma_e2_cong_add(
        e2_add(e2_mul(a.0, c.2), e2_mul(a.2, c.0)),
        e2_add(e2_mul(b.0, d.2), e2_mul(b.2, d.0)),
        e2_mul(a.1, c.1),
        e2_mul(b.1, d.1),
    );
}

pub proof fn lemma_e6_cong_mul_nr(a: E6, b: E6)
    requires
        e6_cong(a, b),
    ensures
        e6_cong(e6_mul_nr(a), e6_mul_nr(b)),
{
    lemma_e2_cong_mul_nr(a.2, b.2);
}

pub proof fn lemma_e12_cong_mul(a: E12, b: E12, c: E12, d: E12)
    requires
        e12_cong(a, b),
        e12_cong(c, d),
    ensures
        e12_cong(e12_mul(a, c), e12_mul(b, d)),
{
    lemma_e6_cong_mul(a.0, b.0, c.0, d.0);
    lemma_e6_cong_mul(a.1, b.1, c.1, d.1);
    lemma_e6_cong_mul_nr(e6_mul(a.1, c.1), e6_mul(b.1, d.1));
    lemma_e6_cong_add(
        e6_mul(a.0, c.0),
        e6_mul(b.0, d.0),
        e6_mul_nr(e6_mul(a.1, c.1)),
        e6_mul_nr(e6_mul(b.1, d.1)),
    );
    lemma_e6_cong_mul(a.0, b.0, c.1, d.1);
    lemma_e6_cong_mul(a.1, b.1, c.0, d.0);
    lemma_e6_cong_add(e6_mul(a.0, c.1), e6_mul(b.0, d.1), e6_mul(a.1, c.0), e6_mul(b.1, d.0));
}

/// Multiplication at the quadratic level is commutative.
pub proof fn lemma_e2_mul_comm(a: (int, int), b: (int, int))
    ensures
        e2_mul(a, b) == e2_mul(b, a),
{
    assert(a.0 * b.0 == b.0 * a.0) by (nonlinear_arith);
    assert(a.1 * b.1 == b.1 * a.1) by (nonlinear_arith);
    assert(a.0 * b.1 == b.1 * a.0) by (nonlinear_arith);
    assert(a.1 * b.0 == b.0 * a.1) by (nonlinear_arith);
}

/// The pair one is neutral for quadratic multiplication.
pub proof fn lemma_e2_mul_one(a: (int, int))
    ensures
        e2_mul(a, e2_one()) == a,
        e2_mul(e2_one(), a) == a,
{
    assert(a.0 * 1 == a.0) by (nonlinear_arith);
    assert(a.1 * 1 == a.1) by (nonlinear_arith);
    assert(a.0 * 0 == 0) by (nonlinear_arith);
    assert(a.1 * 0 == 0) by (nonlinear_arith);
    assert(1 * a.0 == a.0) by (nonlinear_arith);
    assert(1 * a.1 == a.1) by (nonlinear_arith);
    assert(0 * a.0 == 0) by (nonlinear_arith);
    assert(0 * a.1 == 0) by (nonlinear_arith);
}

pub proof fn lemma_e2_mul_dist_right(a: (int, int), b: (int, int), c: (int, int))
    ensures
        e2_mul(a, e2_add(b, c)) == e2_add(e2_mul(a, b), e2_mul(a, c)),
{
    assert(a.0 * (b.0 + c.0) - a.1 * (b.1 + c.1) == (a.0 * b.0 - a.1 * b.1) + (a.0 * c.0 - a.1
        * c.1)) by (nonlinear_arith);
    assert(a.0 * (b.1 + c.1) + a.1 * (b.0 + c.0) == (a.0 * b.1 + a.1 * b.0) + (a.0 * c.1 + a.1
        * c.0)) by (nonlinear_arith);
}

pub proof fn lemma_e2_mul_dist_sub_left(a: (int, int), b: (int, int), c: (int, int))
    ensures
        e2_mul(e2_sub(a, b), c) == e2_sub(e2_mul(a, c), e2_mul(b, c)),
{
    assert((a.0 - b.0) * c.0 - (a.1 - b.1) * c.1 == (a.0 * c.0 - a.1 * c.1) - (b.0 * c.0 - b.1
        * c.1)) by (nonlinear_arith);
    assert((a.0 - b.0) * c.1 + (a.1 - b.1) * c.0 == (a.0 * c.1 + a.1 * c.0) - (b.0 * c.1 + b.1
        * c.0)) by (nonlinear_arith);
}

pub proof fn lemma_e2_mul_dist_sub_right(a: (int, int), b: (int, int), c: (int, int))
    ensures
        e2_mul(a, e2_sub(b, c)) == e2_sub(e2_mul(a, b), e2_mul(a, c)),
{
    assert(a.0 * (b.0 - c.0) - a.1 * (b.1 - c.1) == (a.0 * b.0 - a.1 * b.1) - (a.0 * c.0 - a.1
        * c.1)) by (nonlinear_arith);
    assert(a.0 * (b.1 - c.1) + a.1 * (b.0 - c.0) == (a.0 * b.1 + a.1 * b.0) - (a.0 * c.1 + a.1
        * c.0)) by (nonlinear_arith);
}

/// Multiplying by the nonresidue image of a value is the nonresidue image
/// of the product.
pub proof fn lemma_e2_mul_nr_swap(a: (int, int), b: (int, int))
    ensures
        e2_mul(a, e2_mul_nr(b)) == e2_mul_nr(e2_mul(a, b)),
{
    assert(a.0 * (b.0 - b.1) - a.1 * (b.0 + b.1) == (a.0 * b.0 - a.1 * b.1) - (a.0 * b.1 + a.1
        * b.0)) by (nonlinear_arith);
    assert(a.0 * (b.0 + b.1) + a.1 * (b.0 - b.1) == (a.0 * b.0 - a.1 * b.1) + (a.0 * b.1 + a.1
        * b.0)) by (nonlinear_arith);
}

#[verifier::rlimit(100)]
#[verifier::spinoff_prover]
pub proof fn lemma_e6_mul_dist_left(a: E6, b: E6, c: E6)
    ensures
        e6_mul(e6_add(a, b), c) == e6_add(e6_mul(a, c), e6_mul(b, c)),
{
    lemma_e2_mul_dist_left(a.0, b.0, c.0);
    lemma_e2_mul_dist_left(a.1, b.1, c.2);
    lemma_e2_mul_dist_left(a.2, b.2, c.1);
    lemma_e2_mul_dist_left(a.0, b.0, c.1);
    lemma_e2_mul_dist_left(a.1, b.1, c.0);
    lemma_e2_mul_dist_left(a.2, b.2, c.2);
    lemma_e2_mul_dist_left(a.0, b.0, c.2);
    lemma_e2_mul_dist_left(a.2, b.2, c.0);
    lemma_e2_mul_dist_left(a.1, b.1, c.1);
}

#[verifier::rlimit(100)]
#[verifier::spinoff_prover]
pub proof fn lemma_e6_mul_dist_right(a: E6, b: E6, c: E6)
    ensures
        e6_mul(a, e6_add(b, c)) == e6_add(e6_mul(a, b), e6_mul(a, c)),
{
    lemma_e2_mul_dist_right(a.0, b.0, c.0);
    lemma_e2_mul_dist_right(a.1, b.2, c.2);
    lemma_e2_mul_dist_right(a.2, b.1, c.1);
    lemma_e2_mul_dist_right(a.0, b.1, c.1);
    lemma_e2_mul_dist_right(a.1, b.0, c.0);
    lemma_e2_mul_dist_right(a.2, b.2, c.2);
    lemma_e2_mul_dist_right(a.0, b.2, c.2);
    lemma_e2_mul_dist_right(a.2, b.0, c.0);
    lemma_e2_mul_dist_right(a.1, b.1, c.1);
}

/// The cross identity at the cubic level.
#[verifier::rlimit(100)]
#[verifier::spinoff_prover]
pub proof fn lemma_e6_mul_cross(x: E6, y: E6, u: E6, v: E6)
    ensures
        e6_sub(e6_sub(e6_mul(e6_add(x, y), e6_add(u, v)), e6_mul(x, u)), e6_mul(y, v)) == e6_add(
            e6_mul(x, v),
            e6_mul(y, u),
        ),
{
    lemma_e6_mul_dist_left(x, y, e6_add(u, v));
    lemma_e6_mul_dist_right(x, u, v);
    lemma_e6_mul_dist_right(y, u, v);
}

/// The Karatsuba recombination under congruence, at the cubic level.
#[verifier::rlimit(100)]
#[verifier::spinoff_prover]
pub proof fn lemma_karatsuba_recombine6(
    m: E6,
    t1: E6,
    t2: E6,
    w1: E6,
    w2: E6,
    a1: E6,
    b1: E6,
    a2: E6,
    b2: E6,
)
    requires
        e6_cong(m, e6_mul(e6_add(a1, a2), e6_add(b1, b2))),
        e6_cong(t1, e6_mul(a1, b1)),
        e6_cong(t2, e6_mul(a2, b2)),
        e6_cong(w1, e6_sub(m, t1)),
        e6_cong(w2, e6_sub(w1, t2)),
    ensures
        e6_cong(w2, e6_add(e6_mul(a1, b2), e6_mul(a2, b1))),
{
    lemma_e6_cong_sub(m, e6_mul(e6_add(a1, a2), e6_add(b1, b2)), t1, e6_mul(a1, b1));
    lemma_e6_cong_sub(
        w1,
        e6_sub(e6_mul(e6_add(a1, a2), e6_add(b1, b2)), e6_mul(a1, b1)),
        t2,
        e6_mul(a2, b2),
    );
    lemma_e6_mul_cross(a1, a2, b1, b2);
}

/// Multiplying by the cubic value that represents `v` is the nonresidue
/// rotation.
#[verifier::rlimit(100)]
#[verifier::spinoff_prover]
pub proof fn lemma_e6_mul_v(z: E6)
    ensures
        e6_mul(z, (e2_zero(), e2_one(), e2_zero())) == e6_mul_nr(z),
{
    lemma_e2_mul_zero(z.0);
    lemma_e2_mul_zero(z.1);
    lemma_e2_mul_zero(z.2);
    lemma_e2_mul_one(z.0);
    lemma_e2_mul_one(z.1);
    lemma_e2_mul_one(z.2);
}

/// Multiplying by the nonresidue image of a cubic value is the nonresidue
/// image of the product.
#[verifier::rlimit(100)]
#[verifier::spinoff_prover]
pub proof fn lemma_e6_mul_nr_swap(a: E6, b: E6)
    ensures
        e6_mul(a, e6_mul_nr(b)) == e6_mul_nr(e6_mul(a, b)),
{
    lemma_e2_mul_nr_swap(a.0, b.2);
    lemma_e2_mul_nr_swap(a.1, b.2);
    lemma_e2_mul_nr_swap(a.2, b.2);
}

/// Multiplication at the cubic level is commutative.
#[verifier::rlimit(100)]
#[verifier::spinoff_prover]
pub proof fn lemma_e6_mul_comm(a: E6, b: E6)
    ensures
        e6_mul(a, b) == e6_mul(b, a),
{
    lemma_e2_mul_comm(a.0, b.0);
    lemma_e2_mul_comm(a.1, b.2);
    lemma_e2_mul_comm(a.2, b.1);
    lemma_e2_mul_comm(a.0, b.1);
    lemma_e2_mul_comm(a.1, b.0);
    lemma_e2_mul_comm(a.2, b.2);
    lemma_e2_mul_comm(a.0, b.2);
    lemma_e2_mul_comm(a.2, b.0);
    lemma_e2_mul_comm(a.1, b.1);
}

#[verifier::rlimit(100)]
#[verifier::spinoff_prover]
pub proof fn lemma_e6_mul_dist_sub_left(a: E6, b: E6, c: E6)
    ensures
        e6_mul(e6_sub(a, b), c) == e6_sub(e6_mul(a, c), e6_mul(b, c)),
{
    lemma_e2_mul_dist_sub_left(a.0, b.0, c.0);
    lemma_e2_mul_dist_sub_left(a.1, b.1, c.2);
    lemma_e2_mul_dist_sub_left(a.2, b.2, c.1);
    lemma_e2_mul_dist_sub_left(a.0, b.0, c.1);
    lemma_e2_mul_dist_sub_left(a.1, b.1, c.0);
    lemma_e2_mul_dist_sub_left(a.2, b.2, c.2);
    lemma_e2_mul_dist_sub_left(a.0, b.0, c.2);
    lemma_e2_mul_dist_sub_left(a.2, b.2, c.0);
    lemma_e2_mul_dist_sub_left(a.1, b.1, c.1);
}

#[verifier::rlimit(100)]
#[verifier::spinoff_prover]
pub proof fn lemma_e6_mul_dist_sub_right(a: E6, b: E6, c: E6)
    ensures
        e6_mul(a, e6_sub(b, c)) == e6_sub(e6_mul(a, b), e6_mul(a, c)),
{
    lemma_e2_mul_dist_sub_right(a.0, b.0, c.0);
    lemma_e2_mul_dist_sub_right(a.1, b.2, c.2);
    lemma_e2_mul_dist_sub_right(a.2, b.1, c.1);
    lemma_e2_mul_dist_sub_right(a.0, b.1, c.1);
    lemma_e2_mul_dist_sub_right(a.1, b.0, c.0);
    lemma_e2_mul_dist_sub_right(a.2, b.2, c.2);
    lemma_e2_mul_dist_sub_right(a.0, b.2, c.2);
    lemma_e2_mul_dist_sub_right(a.2, b.0, c.0);
    lemma_e2_mul_dist_sub_right(a.1, b.1, c.1);
}

/// The complex-squaring recombination at the sextic level: the gadget's
/// cheaper squaring form equals the dense square's even coefficient.
#[verifier::rlimit(100)]
#[verifier::spinoff_prover]
pub proof fn lemma_e12_square_identity(a: E6, b: E6)
    ensures
        e6_add(
            e6_add(e6_mul(e6_sub(a, b), e6_sub(a, e6_mul_nr(b))), e6_mul(a, b)),
            e6_mul_nr(e6_mul(a, b)),
        ) == e6_add(e6_mul(a, a), e6_mul_nr(e6_mul(b, b))),
{
    lemma_e6_mul_dist_sub_left(a, b, e6_sub(a, e6_mul_nr(b)));
    lemma_e6_mul_dist_sub_right(a, a, e6_mul_nr(b));
    lemma_e6_mul_dist_sub_right(b, a, e6_mul_nr(b));
    lemma_e6_mul_nr_swap(a, b);
    lemma_e6_mul_nr_swap(b, b);
    lemma_e6_mul_comm(b, a);
}

// ---------------------------------------------------------------------------
// Invertibility of residues, and the norm chain that decides invertibility
// at each tower level: a quadratic value is invertible exactly when its
// norm is, a cubic value when its adjugate determinant is, a sextic value
// when its cubic norm is.  The gadgets' success promises are stated over
// these predicates.
// ---------------------------------------------------------------------------

/// Whether the residue class of `x` has a multiplicative inverse.
pub open spec fn invertible(x: int) -> bool {
    exists|v: int| 0 <= v < fp_modulus() && #[trigger] fpm(v * x) == 1
}

/// The canonical inverse of an invertible residue class.
pub open spec fn fp_inv(x: int) -> int {
    choose|v: int| 0 <= v < fp_modulus() && #[trigger] fpm(v * x) == 1
}

/// The canonical inverse multiplies with its argument to one.
pub proof fn lemma_fp_inv_spec(x: int)
    requires
        invertible(x),
    ensures
        0 <= fp_inv(x) < fp_modulus(),
        fpm(fp_inv(x) * x) == 1,
{
}

/// Invertibility depends only on the residue class.
pub proof fn lemma_invertible_cong(x: int, y: int)
    requires
        cong(x, y),
    ensures
        invertible(x) == invertible(y),
{
    if invertible(x) {
        let v = choose|v: int| 0 <= v < fp_modulus() && #[trigger] fpm(v * x) == 1;
        lemma_cong_mul(v, v, x, y);
        assert(fpm(v * y) == 1);
    }
    if invertible(y) {
        let v = choose|v: int| 0 <= v < fp_modulus() && #[trigger] fpm(v * y) == 1;
        lemma_cong_mul(v, v, y, x);
        assert(fpm(v * x) == 1);
    }
}

/// A residue congruent to zero has no inverse.
pub proof fn lemma_zero_not_invertible(x: int)
    requires
        fpm(x) == 0,
    ensures
        !invertible(x),
{
    lemma_fpm_small(0);
    if invertible(x) {
        let v = choose|v: int| 0 <= v < fp_modulus() && #[trigger] fpm(v * x) == 1;
        lemma_cong_mul(v, v, x, 0);
        assert(v * 0 == 0) by (nonlinear_arith);
        assert(false);
    }
}

/// A quotient that clears an invertible denominator is the product with the
/// canonical inverse.
pub proof fn lemma_quotient_unique(q: int, x: int, y: int)
    requires
        cong(q * y, x),
        invertible(y),
    ensures
        cong(q, x * fp_inv(y)),
{
    let v = fp_inv(y);
    lemma_fp_inv_spec(y);
    lemma_fpm_small(1);
    // q == q * 1 == q * (v * y) == (q * y) * v == x * v, modulo the prime
    lemma_mul_basics(q);
    lemma_cong_mul(q, q, 1, v * y);
    lemma_mul_is_associative(q, v, y);
    lemma_mul_is_commutative(q, v);
    lemma_mul_is_associative(v, q, y);
    lemma_cong_mul(q * y, x, v, v);
    lemma_mul_is_commutative(q * y, v);
    lemma_mul_is_commutative(x, v);
}

/// The canonical inverse depends only on the residue class.
pub proof fn lemma_fp_inv_cong(x: int, y: int)
    requires
        cong(x, y),
        invertible(x),
    ensures
        cong(fp_inv(x), fp_inv(y)),
{
    lemma_invertible_cong(x, y);
    lemma_fp_inv_spec(x);
    lemma_fp_inv_spec(y);
    // fp_inv(x) * y clears y, so it is congruent to 1 * fp_inv(y)
    lemma_cong_mul(fp_inv(x), fp_inv(x), x, y);
    lemma_quotient_unique(fp_inv(x), 1, y);
    lemma_mul_basics(fp_inv(y));
}

/// The norm of a quadratic value.
pub open spec fn e2_norm(a: (int, int)) -> int {
    a.0 * a.0 + a.1 * a.1
}

/// A quadratic value is invertible exactly when its norm is.
pub open spec fn e2_invertible(a: (int, int)) -> bool {
    invertible(e2_norm(a))
}

/// The adjugate coefficients of a cubic value.
pub open spec fn e6_adj0(a: E6) -> (int, int) {
    e2_sub(e2_mul(a.0, a.0), e2_mul_nr(e2_mul(a.1, a.2)))
}

pub open spec fn e6_adj1(a: E6) -> (int, int) {
    e2_sub(e2_mul_nr(e2_mul(a.2, a.2)), e2_mul(a.0, a.1))
}

pub open spec fn e6_adj2(a: E6) -> (int, int) {
    e2_sub(e2_mul(a.1, a.1), e2_mul(a.0, a.2))
}

/// The adjugate determinant of a cubic value.
pub open spec fn e6_det(a: E6) -> (int, int) {
    e2_add(
        e2_mul(a.0, e6_adj0(a)),
        e2_mul_nr(e2_add(e2_mul(a.2, e6_adj1(a)), e2_mul(a.1, e6_adj2(a)))),
    )
}

/// A cubic value is invertible exactly when its determinant is.
pub open spec fn e6_invertible(a: E6) -> bool {
    e2_invertible(e6_det(a))
}

/// The cubic norm of a sextic value.
pub open spec fn e12_det(x: E12) -> E6 {
    e6_sub(e6_mul(x.0, x.0), e6_mul_nr(e6_mul(x.1, x.1)))
}

/// A sextic value is invertible exactly when its cubic norm is.
pub open spec fn e12_invertible(x: E12) -> bool {
    e6_invertible(e12_det(x))
}

/// The norm respects congruence.
pub proof fn lemma_e2_norm_cong(a: (int, int), b: (int, int))
    requires
        e2_cong(a, b),
    ensures
        cong(e2_norm(a), e2_norm(b)),
{
    lemma_cong_mul(a.0, b.0, a.0, b.0);
    lemma_cong_mul(a.1, b.1, a.1, b.1);
    lemma_cong_add(a.0 * a.0, b.0 * b.0, a.1 * a.1, b.1 * b.1);
}

/// Quadratic invertibility respects congruence.
pub proof fn lemma_e2_invertible_cong(a: (int, int), b: (int, int))
    requires
        e2_cong(a, b),
    ensures
        e2_invertible(a) == e2_invertible(b),
{
    lemma_e2_norm_cong(a, b);
    lemma_invertible_cong(e2_norm(a), e2_norm(b));
}

/// The determinant respects congruence.
#[verifier::rlimit(100)]
#[verifier::spinoff_prover]
pub proof fn lemma_e6_det_cong(a: E6, b: E6)
    requires
        e6_cong(a, b),
    ensures
        e2_cong(e6_det(a), e6_det(b)),
{
    lemma_e2_cong_mul(a.0, b.0, a.0, b.0);
    lemma_e2_cong_mul(a.1, b.1, a.2, b.2);
    lemma_e2_cong_mul(a.2, b.2, a.2, b.2);
    lemma_e2_cong_mul(a.0, b.0, a.1, b.1);
    lemma_e2_cong_mul(a.1, b.1, a.1, b.1);
    lemma_e2_cong_mul(a.0, b.0, a.2, b.2);
    lemma_e2_cong_mul_nr(e2_mul(a.1, a.2), e2_mul(b.1, b.2));
    lemma_e2_cong_mul_nr(e2_mul(a.2, a.2), e2_mul(b.2, b.2));
    lemma_e2_cong_sub(
        e2_mul(a.0, a.0),
        e2_mul(b.0, b.0),
        e2_mul_nr(e2_mul(a.1, a.2)),
        e2_mul_nr(e2_mul(b.1, b.2)),
    );
    lemma_e2_cong_sub(
        e2_mul_nr(e2_mul(a.2, a.2)),
        e2_mul_nr(e2_mul(b.2, b.2)),
        e2_mul(a.0, a.1),
        e2_mul(b.0, b.1),
    );
    lemma_e2_cong_sub(e2_mul(a.1, a.1), e2_mul(b.1, b.1), e2_mul(a.0, a.2), e2_mul(b.0, b.2));
    lemma_e2_cong_mul(a.0, b.0, e6_adj0(a), e6_adj0(b));
    lemma_e2_cong_mul(a.2, b.2, e6_adj1(a), e6_adj1(b));
    lemma_e2_cong_mul(a.1, b.1, e6_adj2(a), e6_adj2(b));
    lemma_e2_cong_add(
        e2_mul(a.2, e6_adj1(a)),
        e2_mul(b.2, e6_adj1(b)),
        e2_mul(a.1, e6_adj2(a)),
        e2_mul(b.1, e6_adj2(b)),
    );
    lemma_e2_cong_mul_nr(
        e2_add(e2_mul(a.2, e6_adj1(a)), e2_mul(a.1, e6_adj2(a))),
        e2_add(e2_mul(b.2, e6_adj1(b)), e2_mul(b.1, e6_adj2(b))),
    );
    lemma_e2_cong_add(
        e2_mul(a.0, e6_adj0(a)),
        e2_mul(b.0, e6_adj0(b)),
        e2_mul_nr(e2_add(e2_mul(a.2, e6_adj1(a)), e2_mul(a.1, e6_adj2(a)))),
        e2_mul_nr(e2_add(e2_mul(b.2, e6_adj1(b)), e2_mul(b.1, e6_adj2(b)))),
    );
}

/// Cubic invertibility respects congruence.
pub proof fn lemma_e6_invertible_cong(a: E6, b: E6)
    requires
        e6_cong(a, b),
    ensures
        e6_invertible(a) == e6_invertible(b),
{
    lemma_e6_det_cong(a, b);
    lemma_e2_invertible_cong(e6_det(a), e6_det(b));
}

/// The cubic norm respects congruence.
pub proof fn lemma_e12_det_cong(a: E12, b: E12)
    requires
        e12_cong(a, b),
    ensures
        e6_cong(e12_det(a), e12_det(b)),
{
    lemma_e6_cong_mul(a.0, b.0, a.0, b.0);
    lemma_e6_cong_mul(a.1, b.1, a.1, b.1);
    lemma_e6_cong_mul_nr(e6_mul(a.1, a.1), e6_mul(b.1, b.1));
    lemma_e6_cong_sub(
        e6_mul(a.0, a.0),
        e6_mul(b.0, b.0),
        e6_mul_nr(e6_mul(a.1, a.1)),
        e6_mul_nr(e6_mul(b.1, b.1)),
    );
}

/// Sextic invertibility respects congruence.
pub proof fn lemma_e12_invertible_cong(a: E12, b: E12)
    requires
        e12_cong(a, b),
    ensures
        e12_invertible(a) == e12_invertible(b),
{
    lemma_e12_det_cong(a, b);
    lemma_e6_invertible_cong(e12_det(a), e12_det(b));
}

/// The sextic zero has no inverse.
pub proof fn lemma_e12_zero_not_invertible()
    ensures
        !e12_invertible(e12_zero()),
{
    lemma_fpm_small(0);
    lemma_zero_not_invertible(0);
    assert(e6_det(e12_det(e12_zero())) == e2_zero()) by {
        lemma_e2_mul_zero(e2_zero());
    }
}

} // verus!
