//! The base-field gadget: a residue of the BLS12-381 prime field held as
//! twelve-and-more base-`2^32` limbs, each limb carried in a `u128` whose
//! tracked maximum bit width grows with every linear operation and
//! multiplication.  The width bound is the soundness invariant: it is what
//! keeps every limb combination below the carrier's capacity, and Verus
//! discharges it as the absence of overflow.

use vstd::prelude::*;
use vstd::arithmetic::power2::*;
use vstd::arithmetic::div_mod::*;
use vstd::arithmetic::mul::*;
use crate::arith::{
    invertible, lemma_zero_not_invertible,
    fp_modulus, endo_beta, fpm, cong, seq_val, limbs_val, digits_val, lemma_pow2_32_table,
    lemma_seq_val_snoc, lemma_seq_val_split, lemma_seq_val_update, lemma_seq_val_digits_bound,
    lemma_seq_val_zero, lemma_seq_val_wide_bound, lemma_seq_val_inject, lemma_fpm_range,
    lemma_fpm_small, lemma_cong_fpm, lemma_cong_add, lemma_cong_sub, lemma_cong_mul,
    lemma_cong_add_multiple, lemma_pow2_le, lemma_limbs_val_snoc, lemma_limbs_val_take_succ,
    lemma_digits_val_take_succ, lemma_limbs_val_update,
};
use crate::bigint::{big_divmod, big_modinv};
use crate::circuit::{Circuit, SynthError, count_add};

verus! {

/// Limb count of a canonical (reduced) element.
pub const NLIMBS: usize = 12;

/// The base-field prime as canonical digits, least significant first.
pub fn p_digits() -> (r: Vec<u32>)
    ensures
        r@.len() == 12,
        digits_val(r@) == fp_modulus(),
{
    let mut v: Vec<u32> = Vec::new();
    push_digit(&mut v, 0xffffaaab);
    push_digit(&mut v, 0xb9feffff);
    push_digit(&mut v, 0xb153ffff);
    push_digit(&mut v, 0x1eabfffe);
    push_digit(&mut v, 0xf6b0f624);
    push_digit(&mut v, 0x6730d2a0);
    push_digit(&mut v, 0xf38512bf);
    push_digit(&mut v, 0x64774b84);
    push_digit(&mut v, 0x434bacd7);
    push_digit(&mut v, 0x4b1ba7b6);
    push_digit(&mut v, 0x397fe69a);
    push_digit(&mut v, 0x1a0111ea);
    proof {
        lemma_pow2_32_table();
    }
    v
}

/// The endomorphism constant as canonical digits, least significant first.
pub fn beta_digits() -> (r: Vec<u32>)
    ensures
        r@.len() == 12,
        digits_val(r@) == endo_beta(),
{
    let mut v: Vec<u32> = Vec::new();
    push_digit(&mut v, 0xfffefffe);
    push_digit(&mut v, 0x2e01ffff);
    push_digit(&mut v, 0x620a0002);
    push_digit(&mut v, 0xde17d813);
    push_digit(&mut v, 0xe6f89688);
    push_digit(&mut v, 0xddb3a93b);
    push_digit(&mut v, 0x6a0f77ea);
    push_digit(&mut v, 0xba69c607);
    push_digit(&mut v, 0xdf76ce51);
    push_digit(&mut v, 0x5f19672f);
    push_digit(&mut v, 0x0);
    push_digit(&mut v, 0x0);
    proof {
        lemma_pow2_32_table();
    }
    v
}

/// Append one digit, tracking the value.
fn push_digit(v: &mut Vec<u32>, d: u32)
    ensures
        final(v)@ == old(v)@.push(d),
        final(v)@.len() == old(v)@.len() + 1,
        digits_val(final(v)@) == digits_val(old(v)@) + d * pow2(32 * old(v)@.len()),
{
    proof {
        lemma_seq_val_snoc(old(v)@.map(|_i: int, x: u32| x as nat), d as nat);
        assert(old(v)@.push(d).map(|_i: int, x: u32| x as nat) =~= old(v)@.map(
            |_i: int, x: u32| x as nat,
        ).push(d as nat));
    }
    v.push(d);
}

/// Append one wide limb, tracking the value.
fn push_limb(v: &mut Vec<u128>, d: u128)
    ensures
        final(v)@ == old(v)@.push(d),
        final(v)@.len() == old(v)@.len() + 1,
        limbs_val(final(v)@) == limbs_val(old(v)@) + d * pow2(32 * old(v)@.len()),
{
    proof {
        lemma_seq_val_snoc(old(v)@.map(|_i: int, x: u128| x as nat), d as nat);
        assert(old(v)@.push(d).map(|_i: int, x: u128| x as nat) =~= old(v)@.map(
            |_i: int, x: u128| x as nat,
        ).push(d as nat));
    }
    v.push(d);
}

/// `2^w` as a limb carrier value.
#[verifier::loop_isolation(false)]
fn pow2_u128(w: u32) -> (r: u128)
    requires
        w <= 126,
    ensures
        r == pow2(w as nat),
{
    let mut r: u128 = 1;
    let mut i: u32 = 0;
    proof {
        lemma_pow2_32_table();
        lemma2_to64();
    }
    while i < w
        invariant
            i <= w <= 126,
            r == pow2(i as nat),
        decreases w - i,
    {
        proof {
            lemma_pow2_adds(i as nat, 1);
            lemma2_to64();
            lemma_pow2_strictly_increases(i as nat, 127);
            assert(pow2(127) == 0x8000_0000_0000_0000_0000_0000_0000_0000nat) by {
                lemma_pow2_adds(64, 63);
                lemma2_to64();
                lemma2_to64_rest();
            }
        }
        r = r * 2;
        i = i + 1;
    }
    r
}

/// Carry-propagate wide limbs into proper digits of the same value.
#[verifier::loop_isolation(false)]
fn normalize(limbs: &Vec<u128>) -> (r: Vec<u32>)
    requires
        forall|i: int| 0 <= i < limbs@.len() ==> limbs@[i]
            < 0x4000_0000_0000_0000_0000_0000_0000_0000u128,
    ensures
        digits_val(r@) == limbs_val(limbs@),
{
    let ghost lv = limbs@.map(|_i: int, x: u128| x as nat);
    let mut out: Vec<u32> = Vec::new();
    let mut carry: u128 = 0;
    let mut i: usize = 0;
    proof {
        lemma_pow2_32_table();
        assert(limbs@.take(0).map(|_i: int, x: u128| x as nat) =~= Seq::<nat>::empty());
    }
    while i < limbs.len()
        invariant
            i <= limbs@.len(),
            carry < 0x1_0000_0000_0000_0000_0000_0000u128,
            digits_val(out@) + carry * pow2(32 * i as nat) == limbs_val(limbs@.take(i as int)),
            out@.len() == i,
        decreases limbs@.len() - i,
    {
        let cur: u128 = limbs[i] + carry;
        let d: u32 = (cur % 0x1_0000_0000) as u32;
        let newc: u128 = cur / 0x1_0000_0000;
        proof {
            lemma_fundamental_div_mod(cur as int, 0x1_0000_0000);
            lemma_mod_division_less_than_divisor(cur as int, 0x1_0000_0000);
            lemma_div_is_ordered(cur as int, 0x7fff_ffff_ffff_ffff_ffff_ffff_ffff_ffffint,
                0x1_0000_0000);
            lemma_pow2_adds(32 * i as nat, 32);
            lemma_seq_val_snoc(out@.map(|_j: int, x: u32| x as nat), d as nat);
            assert(out@.push(d).map(|_j: int, x: u32| x as nat) =~= out@.map(
                |_j: int, x: u32| x as nat,
            ).push(d as nat));
            assert(limbs@.take(i + 1).map(|_j: int, x: u128| x as nat) =~= limbs@.take(
                i as int,
            ).map(|_j: int, x: u128| x as nat).push(limbs@[i as int] as nat));
            lemma_seq_val_snoc(
                limbs@.take(i as int).map(|_j: int, x: u128| x as nat),
                limbs@[i as int] as nat,
            );
            let pi = pow2(32 * i as nat);
            assert(cur == d + 0x1_0000_0000 * newc);
            assert((d + 0x1_0000_0000 * newc) * pi == d * pi + newc * (0x1_0000_0000 * pi))
                by (nonlinear_arith);
            assert(cur * pi == limbs@[i as int] * pi + carry * pi) by (nonlinear_arith)
                requires cur == limbs@[i as int] + carry;
        }
        out.push(d);
        carry = newc;
        i = i + 1;
    }
    proof {
        assert(limbs@.take(limbs@.len() as int) =~= limbs@);
    }
    while carry > 0
        invariant
            digits_val(out@) + carry * pow2(32 * out@.len()) == limbs_val(limbs@),
        decreases carry,
    {
        let d: u32 = (carry % 0x1_0000_0000) as u32;
        let newc: u128 = carry / 0x1_0000_0000;
        proof {
            lemma_fundamental_div_mod(carry as int, 0x1_0000_0000);
            lemma_mod_division_less_than_divisor(carry as int, 0x1_0000_0000);
            lemma_div_is_strictly_smaller(carry as int, 0x1_0000_0000);
            lemma_pow2_adds(32 * out@.len(), 32);
            lemma_seq_val_snoc(out@.map(|_j: int, x: u32| x as nat), d as nat);
            assert(out@.push(d).map(|_j: int, x: u32| x as nat) =~= out@.map(
                |_j: int, x: u32| x as nat,
            ).push(d as nat));
            let pi = pow2(32 * out@.len());
            assert(carry == d + 0x1_0000_0000 * newc);
            assert((d + 0x1_0000_0000 * newc) * pi == d * pi + newc * (0x1_0000_0000 * pi))
                by (nonlinear_arith);
        }
        out.push(d);
        carry = newc;
    }
    out
}

/// Truncate or zero-pad proper digits to canonical length, keeping the value.
#[verifier::loop_isolation(false)]
#[verifier::rlimit(50)]
fn pad12(d: &Vec<u32>) -> (r: Vec<u32>)
    requires
        digits_val(d@) < pow2(384),
    ensures
        r@.len() == 12,
        digits_val(r@) == digits_val(d@),
{
    let mut r: Vec<u32> = Vec::new();
    let mut i: usize = 0;
    proof {
        assert(d@.take(0).map(|_j: int, x: u32| x as nat) =~= Seq::<nat>::empty());
    }
    while i < 12
        invariant
            r@.len() == i,
            i <= 12,
            i <= d@.len() ==> digits_val(r@) == digits_val(d@.take(i as int)),
            i > d@.len() ==> digits_val(r@) == digits_val(d@),
        decreases 12 - i,
    {
        let dx: u32 = if i < d.len() {
            d[i]
        } else {
            0
        };
        proof {
            lemma_seq_val_snoc(r@.map(|_j: int, x: u32| x as nat), dx as nat);
            assert(r@.push(dx).map(|_j: int, x: u32| x as nat) =~= r@.map(
                |_j: int, x: u32| x as nat,
            ).push(dx as nat));
            if i < d@.len() {
                assert(d@.take(i + 1).map(|_j: int, x: u32| x as nat) =~= d@.take(i as int).map(
                    |_j: int, x: u32| x as nat,
                ).push(d@[i as int] as nat));
                lemma_seq_val_snoc(
                    d@.take(i as int).map(|_j: int, x: u32| x as nat),
                    d@[i as int] as nat,
                );
            } else {
                if i == d@.len() {
                    assert(d@.take(i as int) =~= d@);
                }
                assert((dx as nat) * pow2(32 * r@.len()) == 0) by (nonlinear_arith)
                    requires dx == 0;
            }
        }
        r.push(dx);
        i = i + 1;
        proof {
            assert(r@.len() == i);
            if i <= d@.len() {
                assert(digits_val(r@) == digits_val(d@.take(i as int)));
            } else {
                assert(digits_val(r@) == digits_val(d@));
            }
        }
    }
    proof {
        assert(i == 12);
        assert(r@.len() == 12);
        assert(12 <= d@.len() ==> digits_val(r@) == digits_val(d@.take(12)));
        assert(12 > d@.len() ==> digits_val(r@) == digits_val(d@));
        if 12 < d@.len() {
            let dv = d@.map(|_j: int, x: u32| x as nat);
            lemma_seq_val_split(dv, 12);
            assert(d@.take(12).map(|_j: int, x: u32| x as nat) =~= dv.take(12));
            let hi = seq_val(dv.skip(12));
            assert(digits_val(d@) == digits_val(d@.take(12)) + pow2((32 * 12) as nat) * hi);
            assert(pow2((32 * 12) as nat) == pow2(384));
            if hi >= 1 {
                lemma_pow2_pos(384);
                assert(pow2(384) * hi >= pow2(384) * 1) by (nonlinear_arith)
                    requires hi >= 1, pow2(384) > 0;
                assert(false);
            }
            assert(hi == 0);
            assert(pow2((32 * 12) as nat) * hi == 0) by (nonlinear_arith)
                requires hi == 0;
            assert(digits_val(r@) == digits_val(d@));
        } else {
            if 12 == d@.len() {
                assert(d@.take(12) =~= d@);
            }
        }
    }
    r
}

/// Digit-vector subtraction, minuend at least the subtrahend.
#[verifier::loop_isolation(false)]
#[verifier::rlimit(50)]
fn sub_digits(a: &Vec<u32>, b: &Vec<u32>) -> (r: Vec<u32>)
    requires
        a@.len() == b@.len(),
        digits_val(a@) >= digits_val(b@),
    ensures
        r@.len() == a@.len(),
        digits_val(r@) == digits_val(a@) - digits_val(b@),
{
    let n = a.len();
    let mut r: Vec<u32> = Vec::new();
    let mut borrow: u32 = 0;
    let mut i: usize = 0;
    proof {
        assert(a@.take(0).map(|_j: int, x: u32| x as nat) =~= Seq::<nat>::empty());
        assert(b@.take(0).map(|_j: int, x: u32| x as nat) =~= Seq::<nat>::empty());
    }
    while i < n
        invariant
            i <= n == a@.len() == b@.len(),
            r@.len() == i,
            borrow <= 1,
            digits_val(r@) == digits_val(a@.take(i as int)) - digits_val(b@.take(i as int)) + borrow
                * pow2(32 * i as nat),
        decreases n - i,
    {
        let ai: u64 = a[i] as u64;
        let bi: u64 = b[i] as u64 + borrow as u64;
        let (d, nb): (u32, u32) = if ai >= bi {
            ((ai - bi) as u32, 0)
        } else {
            ((ai + 0x1_0000_0000 - bi) as u32, 1)
        };
        proof {
            lemma_pow2_adds(32 * i as nat, 32);
            lemma_seq_val_snoc(r@.map(|_j: int, x: u32| x as nat), d as nat);
            assert(r@.push(d).map(|_j: int, x: u32| x as nat) =~= r@.map(
                |_j: int, x: u32| x as nat,
            ).push(d as nat));
            assert(a@.take(i + 1).map(|_j: int, x: u32| x as nat) =~= a@.take(i as int).map(
                |_j: int, x: u32| x as nat,
            ).push(a@[i as int] as nat));
            lemma_seq_val_snoc(
                a@.take(i as int).map(|_j: int, x: u32| x as nat),
                a@[i as int] as nat,
            );
            assert(b@.take(i + 1).map(|_j: int, x: u32| x as nat) =~= b@.take(i as int).map(
                |_j: int, x: u32| x as nat,
            ).push(b@[i as int] as nat));
            lemma_seq_val_snoc(
                b@.take(i as int).map(|_j: int, x: u32| x as nat),
                b@[i as int] as nat,
            );
            let pi = pow2(32 * i as nat);
            lemma_pow2_32_table();
            // d - nb * 2^32 == a[i] - b[i] - borrow, scaled by the radix power
            assert((d as int - nb * 0x1_0000_0000) * pi == d * pi - nb * (0x1_0000_0000 * pi))
                by (nonlinear_arith);
            assert((a@[i as int] as int - b@[i as int] - borrow) * pi == a@[i as int] * pi
                - b@[i as int] * pi - borrow * pi) by (nonlinear_arith);
        }
        r.push(d);
        borrow = nb;
        i = i + 1;
    }
    proof {
        assert(a@.take(n as int) =~= a@);
        assert(b@.take(n as int) =~= b@);
        if borrow == 1 {
            lemma_seq_val_digits_bound(r@.map(|_j: int, x: u32| x as nat));
            assert(borrow * pow2(32 * i as nat) == pow2(32 * i as nat)) by (nonlinear_arith)
                requires borrow == 1;
            assert(false);
        }
        assert(borrow == 0 ==> borrow * pow2(32 * i as nat) == 0) by (nonlinear_arith);
    }
    r
}

/// Whether a digit vector holds the value zero.
#[verifier::loop_isolation(false)]
fn digits_are_zero(d: &Vec<u32>) -> (r: bool)
    ensures
        r == (digits_val(d@) == 0),
{
    let mut i: usize = 0;
    let mut all: bool = true;
    proof {
        assert(d@.take(0).map(|_j: int, x: u32| x as nat) =~= Seq::<nat>::empty());
    }
    while i < d.len()
        invariant
            i <= d@.len(),
            all == (digits_val(d@.take(i as int)) == 0),
        decreases d@.len() - i,
    {
        proof {
            assert(d@.take(i + 1).map(|_j: int, x: u32| x as nat) =~= d@.take(i as int).map(
                |_j: int, x: u32| x as nat,
            ).push(d@[i as int] as nat));
            lemma_seq_val_snoc(
                d@.take(i as int).map(|_j: int, x: u32| x as nat),
                d@[i as int] as nat,
            );
            lemma_pow2_pos(32 * i as nat);
            if d@[i as int] as nat > 0 {
                assert(d@[i as int] * pow2(32 * i as nat) >= 1 * pow2(32 * i as nat))
                    by (nonlinear_arith)
                    requires d@[i as int] >= 1, pow2(32 * i as nat) >= 1;
            }
        }
        if d[i] != 0 {
            all = false;
        }
        i = i + 1;
    }
    proof {
        assert(d@.take(d@.len() as int) =~= d@);
    }
    all
}

/// Whether two equal-length digit vectors are equal.
#[verifier::loop_isolation(false)]
fn digits_eq(a: &Vec<u32>, b: &Vec<u32>) -> (r: bool)
    requires
        a@.len() == b@.len(),
    ensures
        r == (a@ == b@),
{
    let mut i: usize = 0;
    let mut same: bool = true;
    proof {
        assert(a@.take(0) =~= b@.take(0));
    }
    while i < a.len()
        invariant
            i <= a@.len() == b@.len(),
            same == (a@.take(i as int) == b@.take(i as int)),
        decreases a@.len() - i,
    {
        proof {
            if a@.take(i as int) == b@.take(i as int) && a@[i as int] == b@[i as int] {
                assert(a@.take(i + 1) =~= a@.take(i as int).push(a@[i as int]));
                assert(b@.take(i + 1) =~= b@.take(i as int).push(b@[i as int]));
            }
            if a@.take(i + 1) == b@.take(i + 1) {
                assert(a@.take(i as int) =~= a@.take(i + 1).take(i as int));
                assert(b@.take(i as int) =~= b@.take(i + 1).take(i as int));
                assert(a@[i as int] == a@.take(i + 1)[i as int]);
            }
        }
        if a[i] != b[i] {
            same = false;
        }
        i = i + 1;
    }
    proof {
        assert(a@.take(a@.len() as int) =~= a@);
        assert(b@.take(b@.len() as int) =~= b@);
    }
    same
}

/// Widen proper digits into wide limbs of the same value.
#[verifier::loop_isolation(false)]
fn widen_digits(d: &Vec<u32>) -> (r: Vec<u128>)
    ensures
        r@.len() == d@.len(),
        limbs_val(r@) == digits_val(d@),
        forall|i: int| 0 <= i < r@.len() ==> r@[i] == d@[i],
{
    let mut r: Vec<u128> = Vec::new();
    let mut i: usize = 0;
    proof {
        assert(d@.take(0).map(|_j: int, x: u32| x as nat) =~= Seq::<nat>::empty());
    }
    while i < d.len()
        invariant
            i <= d@.len(),
            r@.len() == i,
            limbs_val(r@) == digits_val(d@.take(i as int)),
            forall|j: int| 0 <= j < i ==> r@[j] == d@[j],
        decreases d@.len() - i,
    {
        proof {
            lemma_seq_val_snoc(r@.map(|_j: int, x: u128| x as nat), d@[i as int] as nat);
            assert(r@.push(d@[i as int] as u128).map(|_j: int, x: u128| x as nat) =~= r@.map(
                |_j: int, x: u128| x as nat,
            ).push(d@[i as int] as nat));
            assert(d@.take(i + 1).map(|_j: int, x: u32| x as nat) =~= d@.take(i as int).map(
                |_j: int, x: u32| x as nat,
            ).push(d@[i as int] as nat));
            lemma_seq_val_snoc(
                d@.take(i as int).map(|_j: int, x: u32| x as nat),
                d@[i as int] as nat,
            );
        }
        let x: u128 = d[i] as u128;
        r.push(x);
        i = i + 1;
    }
    proof {
        assert(d@.take(d@.len() as int) =~= d@);
    }
    r
}

proof fn lemma_pow2_125_126()
    ensures
        pow2(125) == 0x2000_0000_0000_0000_0000_0000_0000_0000nat,
        pow2(126) == 0x4000_0000_0000_0000_0000_0000_0000_0000nat,
{
    lemma_pow2_adds(64, 61);
    lemma_pow2_adds(64, 62);
    lemma2_to64();
    lemma2_to64_rest();
}

proof fn lemma_p_below_384()
    ensures
        1 < fp_modulus() < pow2(384),
{
    lemma_pow2_32_table();
}

/// Copy a digit vector.
#[verifier::loop_isolation(false)]
fn copy_digits(v: &Vec<u32>) -> (r: Vec<u32>)
    ensures
        r@ == v@,
{
    let mut r: Vec<u32> = Vec::new();
    let mut i: usize = 0;
    while i < v.len()
        invariant
            i <= v@.len(),
            r@ == v@.take(i as int),
        decreases v@.len() - i,
    {
        proof {
            assert(v@.take(i + 1) =~= v@.take(i as int).push(v@[i as int]));
        }
        r.push(v[i]);
        i = i + 1;
    }
    proof {
        assert(v@.take(v@.len() as int) =~= v@);
    }
    r
}

/// Copy a limb vector.
#[verifier::loop_isolation(false)]
fn copy_limbs(v: &Vec<u128>) -> (r: Vec<u128>)
    ensures
        r@ == v@,
{
    let mut r: Vec<u128> = Vec::new();
    let mut i: usize = 0;
    while i < v.len()
        invariant
            i <= v@.len(),
            r@ == v@.take(i as int),
        decreases v@.len() - i,
    {
        proof {
            assert(v@.take(i + 1) =~= v@.take(i as int).push(v@[i as int]));
        }
        r.push(v[i]);
        i = i + 1;
    }
    proof {
        assert(v@.take(v@.len() as int) =~= v@);
    }
    r
}

/// Zero-extend a limb vector to the given length, keeping the value.
#[verifier::loop_isolation(false)]
fn pad_limbs(v: &Vec<u128>, n: usize) -> (r: Vec<u128>)
    requires
        v@.len() <= n,
    ensures
        r@.len() == n,
        limbs_val(r@) == limbs_val(v@),
        forall|k: int| 0 <= k < n ==> r@[k] == (if k < v@.len() {
            v@[k]
        } else {
            0u128
        }),
{
    let mut r: Vec<u128> = copy_limbs(v);
    while r.len() < n
        invariant
            v@.len() <= r@.len() <= n,
            limbs_val(r@) == limbs_val(v@),
            forall|k: int| 0 <= k < r@.len() ==> r@[k] == (if k < v@.len() {
                v@[k]
            } else {
                0u128
            }),
        decreases n - r@.len(),
    {
        proof {
            lemma_limbs_val_snoc(r@, 0u128);
        }
        r.push(0u128);
    }
    r
}

/// Narrow canonical-width limbs back into proper digits.
#[verifier::loop_isolation(false)]
fn narrow_limbs(v: &Vec<u128>) -> (r: Vec<u32>)
    requires
        forall|k: int| 0 <= k < v@.len() ==> v@[k] < 0x1_0000_0000u128,
    ensures
        r@.len() == v@.len(),
        digits_val(r@) == limbs_val(v@),
        forall|k: int| 0 <= k < v@.len() ==> r@[k] == v@[k],
{
    let mut r: Vec<u32> = Vec::new();
    let mut i: usize = 0;
    while i < v.len()
        invariant
            i <= v@.len(),
            r@.len() == i,
            digits_val(r@) == limbs_val(v@.take(i as int)),
            forall|k: int| 0 <= k < i ==> r@[k] == v@[k],
        decreases v@.len() - i,
    {
        let d: u32 = v[i] as u32;
        proof {
            lemma_seq_val_snoc(r@.map(|_j: int, x: u32| x as nat), d as nat);
            assert(r@.push(d).map(|_j: int, x: u32| x as nat) =~= r@.map(
                |_j: int, x: u32| x as nat,
            ).push(d as nat));
            lemma_limbs_val_take_succ(v@, i as int);
        }
        r.push(d);
        i = i + 1;
    }
    proof {
        assert(v@.take(v@.len() as int) =~= v@);
    }
    r
}

/// A plaintext base-field residue: twelve canonical digits, value below the
/// prime.  This is what circuit elements are allocated from and extracted to.
pub struct Fp {
    pub limbs: Vec<u32>,
}

impl Fp {
    /// Canonical form: twelve digits, value below the prime.
    pub open spec fn wf(&self) -> bool {
        self.limbs@.len() == 12 && digits_val(self.limbs@) < fp_modulus()
    }

    /// The represented residue.
    pub open spec fn spec_val(&self) -> nat {
        digits_val(self.limbs@)
    }

    /// The represented residue, as a mathematical integer.
    pub open spec fn as_int(&self) -> int {
        self.spec_val() as int
    }

    /// The additive identity.
    pub fn zero() -> (r: Self)
        ensures
            r.wf(),
            r.spec_val() == 0,
    {
        let v: Vec<u32> = Vec::new();
        proof {
            lemma_pow2_pos(384);
            lemma_p_below_384();
        }
        Fp { limbs: pad12(&v) }
    }

    /// The multiplicative identity.
    pub fn one() -> (r: Self)
        ensures
            r.wf(),
            r.spec_val() == 1,
    {
        let mut v: Vec<u32> = Vec::new();
        push_digit(&mut v, 1);
        proof {
            lemma_pow2_32_table();
            lemma_p_below_384();
        }
        Fp { limbs: pad12(&v) }
    }

    /// Build a residue from little-endian base-`2^32` digits of any length,
    /// reducing modulo the prime.
    pub fn from_digits(d: &Vec<u32>) -> (r: Self)
        ensures
            r.wf(),
            r.as_int() == fpm(digits_val(d@) as int),
    {
        let p = p_digits();
        proof {
            lemma_p_below_384();
        }
        let (q, rem) = big_divmod(d, &p);
        proof {
            lemma_fundamental_div_mod_converse_mod(
                digits_val(d@) as int,
                fp_modulus() as int,
                digits_val(q@) as int,
                digits_val(rem@) as int,
            );
            lemma_pow2_32_table();
        }
        Fp { limbs: pad12(&rem) }
    }

    /// The digits of the residue, least significant first.
    pub fn to_digits(&self) -> (r: Vec<u32>)
        ensures
            r@ == self.limbs@,
    {
        copy_digits(&self.limbs)
    }
}

/// A base-field element allocated in the circuit: wide limbs in radix
/// `2^32`, every limb strictly below `2^width`.  The width bound is the
/// emulation's safety invariant; every operation states how it grows.
pub struct AllocatedFieldElement {
    pub limbs: Vec<u128>,
    pub width: u32,
}

impl AllocatedFieldElement {
    /// The structural invariant: a bounded number of limbs, each strictly
    /// below the tracked width, which itself leaves the carrier headroom.
    pub open spec fn wf(&self) -> bool {
        1 <= self.limbs@.len() <= 64 && 32 <= self.width <= 126 && forall|i: int|
            0 <= i < self.limbs@.len() ==> self.limbs@[i] < pow2(self.width as nat)
    }

    /// The represented (unreduced) integer.
    pub open spec fn spec_val(&self) -> nat {
        limbs_val(self.limbs@)
    }

    /// The represented integer, as a mathematical integer.
    pub open spec fn as_int(&self) -> int {
        self.spec_val() as int
    }

    /// Fully reduced form: canonical shape and value below the prime.
    pub open spec fn canonical(&self) -> bool {
        self.wf() && self.limbs@.len() == 12 && self.width == 32 && self.spec_val() < fp_modulus()
    }

    /// The limbs are below the carrier bound that `normalize` needs.
    proof fn lemma_limbs_in_carrier(&self)
        requires
            self.wf(),
        ensures
            forall|i: int| 0 <= i < self.limbs@.len() ==> self.limbs@[i]
                < 0x4000_0000_0000_0000_0000_0000_0000_0000u128,
    {
        lemma_pow2_125_126();
        lemma_pow2_le(self.width as nat, 126);
    }

    /// Wrap twelve proper digits as a width-32 element.
    pub(crate) fn from_canonical_digits(d: &Vec<u32>) -> (r: Self)
        requires
            d@.len() == 12,
        ensures
            r.wf(),
            r.limbs@.len() == 12,
            r.width == 32,
            r.spec_val() == digits_val(d@),
            digits_val(d@) < fp_modulus() ==> r.canonical(),
    {
        let limbs = widen_digits(d);
        proof {
            lemma_pow2_32_table();
        }
        AllocatedFieldElement { limbs, width: 32 }
    }

    /// An identical copy of this element.
    pub(crate) fn duplicate(&self) -> (r: Self)
        ensures
            r.limbs@ == self.limbs@,
            r.width == self.width,
    {
        AllocatedFieldElement { limbs: copy_limbs(&self.limbs), width: self.width }
    }

    /// The canonical digits of this element's residue.
    fn residue(&self) -> (r: Vec<u32>)
        requires
            self.wf(),
        ensures
            r@.len() == 12,
            digits_val(r@) < fp_modulus(),
            digits_val(r@) as int == fpm(self.as_int()),
    {
        proof {
            self.lemma_limbs_in_carrier();
            lemma_p_below_384();
        }
        let nd = normalize(&self.limbs);
        let p = p_digits();
        let (q, rem) = big_divmod(&nd, &p);
        proof {
            lemma_fundamental_div_mod_converse_mod(
                self.as_int(),
                fp_modulus() as int,
                digits_val(q@) as int,
                digits_val(rem@) as int,
            );
            lemma_pow2_32_table();
        }
        pad12(&rem)
    }

    /// Allocate an element from a plaintext residue.  Emits one range
    /// constraint per limb.
    pub fn alloc_element(cs: &mut Circuit, value: &Fp) -> (r: Self)
        requires
            value.wf(),
        ensures
            r.canonical(),
            r.spec_val() == value.spec_val(),
            final(cs).constraints == count_add(old(cs).constraints, 12),
            final(cs).satisfied == old(cs).satisfied,
    {
        cs.bump(12);
        Self::from_canonical_digits(&value.limbs)
    }

    /// Extract the plaintext residue of a canonical element.
    pub fn to_value(&self) -> (r: Fp)
        requires
            self.canonical(),
        ensures
            r.wf(),
            r.spec_val() == self.spec_val(),
    {
        proof {
            lemma_pow2_32_table();
        }
        let d = narrow_limbs(&self.limbs);
        Fp { limbs: d }
    }

    /// Reduce to canonical form via a witnessed quotient and remainder.
    pub fn reduce(&self, cs: &mut Circuit) -> (r: Self)
        requires
            self.wf(),
        ensures
            r.canonical(),
            r.as_int() == fpm(self.as_int()),
            final(cs).constraints == count_add(old(cs).constraints, 13),
            final(cs).satisfied == old(cs).satisfied,
    {
        cs.bump(13);
        let rd = self.residue();
        Self::from_canonical_digits(&rd)
    }

    /// Limb-wise addition; free of constraints, the width grows by one bit.
    #[verifier::loop_isolation(false)]
    pub fn add(&self, cs: &mut Circuit, value: &Self) -> (r: Self)
        requires
            self.wf(),
            value.wf(),
            self.width <= 125,
            value.width <= 125,
        ensures
            r.wf(),
            r.spec_val() == self.spec_val() + value.spec_val(),
            r.limbs@.len() == (if self.limbs@.len() >= value.limbs@.len() {
                self.limbs@.len()
            } else {
                value.limbs@.len()
            }),
            r.width == (if self.width >= value.width {
                self.width
            } else {
                value.width
            }) + 1,
            final(cs).constraints == old(cs).constraints,
            final(cs).satisfied == old(cs).satisfied,
    {
        let la = self.limbs.len();
        let lb = value.limbs.len();
        let n: usize = if la >= lb {
            la
        } else {
            lb
        };
        let w: u32 = if self.width >= value.width {
            self.width
        } else {
            value.width
        };
        let pa = pad_limbs(&self.limbs, n);
        let pb = pad_limbs(&value.limbs, n);
        let mut out: Vec<u128> = Vec::new();
        let mut i: usize = 0;
        proof {
            lemma_pow2_125_126();
            lemma_pow2_le(self.width as nat, w as nat);
            lemma_pow2_le(value.width as nat, w as nat);
            lemma_pow2_le(w as nat, 125);
            lemma_pow2_adds(w as nat, 1);
            lemma2_to64();
            assert(pa@.take(0) =~= Seq::<u128>::empty());
            assert(pb@.take(0) =~= Seq::<u128>::empty());
        }
        while i < n
            invariant
                i <= n == pa@.len() == pb@.len(),
                out@.len() == i,
                limbs_val(out@) == limbs_val(pa@.take(i as int)) + limbs_val(pb@.take(i as int)),
                forall|k: int| 0 <= k < i ==> out@[k] < pow2((w + 1) as nat),
            decreases n - i,
        {
            let s: u128 = pa[i] + pb[i];
            proof {
                lemma_limbs_val_snoc(out@, s);
                lemma_limbs_val_take_succ(pa@, i as int);
                lemma_limbs_val_take_succ(pb@, i as int);
                assert((pa@[i as int] + pb@[i as int]) * pow2((32 * i) as nat) == pa@[i as int]
                    * pow2((32 * i) as nat) + pb@[i as int] * pow2((32 * i) as nat))
                    by (nonlinear_arith);
            }
            out.push(s);
            i = i + 1;
        }
        proof {
            assert(pa@.take(n as int) =~= pa@);
            assert(pb@.take(n as int) =~= pb@);
        }
        AllocatedFieldElement { limbs: out, width: w + 1 }
    }

    /// Limb-wise doubling; free of constraints.
    pub fn double(&self, cs: &mut Circuit) -> (r: Self)
        requires
            self.wf(),
            self.width <= 125,
        ensures
            r.wf(),
            r.spec_val() == 2 * self.spec_val(),
            r.limbs@.len() == self.limbs@.len(),
            r.width == self.width + 1,
            final(cs).constraints == old(cs).constraints,
            final(cs).satisfied == old(cs).satisfied,
    {
        self.add(cs, self)
    }

    /// Emit the constraints equating two elements' residues; the witness
    /// satisfies them exactly when the values are congruent.
    pub fn assert_is_equal(cs: &mut Circuit, a: &Self, b: &Self)
        requires
            a.wf(),
            b.wf(),
        ensures
            final(cs).constraints == count_add(old(cs).constraints, 13),
            final(cs).satisfied == (old(cs).satisfied && cong(a.as_int(), b.as_int())),
    {
        let ar = a.residue();
        let br = b.residue();
        let eq = digits_eq(&ar, &br);
        proof {
            if digits_val(ar@) == digits_val(br@) {
                lemma_seq_val_inject(
                    ar@.map(|_j: int, x: u32| x as nat),
                    br@.map(|_j: int, x: u32| x as nat),
                );
                assert forall|i: int| 0 <= i < ar@.len() implies ar@[i] == br@[i] by {
                    assert(ar@.map(|_j: int, x: u32| x as nat)[i] == br@.map(
                        |_j: int, x: u32| x as nat,
                    )[i]);
                }
                assert(ar@ =~= br@);
            }
        }
        cs.bump(13);
        cs.enforce(eq);
    }

    /// Emit the constraints equating a reduced element with a constant.
    pub fn assert_equality_to_constant(&self, cs: &mut Circuit, constant: &Self)
        requires
            self.canonical(),
            constant.canonical(),
        ensures
            final(cs).constraints == count_add(old(cs).constraints, 12),
            final(cs).satisfied == (old(cs).satisfied && cong(self.as_int(), constant.as_int())),
    {
        proof {
            lemma_pow2_32_table();
        }
        let sd = narrow_limbs(&self.limbs);
        let cd = narrow_limbs(&constant.limbs);
        let eq = digits_eq(&sd, &cd);
        proof {
            if self.spec_val() == constant.spec_val() {
                lemma_seq_val_inject(
                    sd@.map(|_j: int, x: u32| x as nat),
                    cd@.map(|_j: int, x: u32| x as nat),
                );
                assert forall|i: int| 0 <= i < sd@.len() implies sd@[i] == cd@[i] by {
                    assert(sd@.map(|_j: int, x: u32| x as nat)[i] == cd@.map(
                        |_j: int, x: u32| x as nat,
                    )[i]);
                }
                assert(sd@ =~= cd@);
            }
            lemma_fpm_small(self.as_int());
            lemma_fpm_small(constant.as_int());
        }
        cs.bump(12);
        cs.enforce(eq);
    }

    /// A boolean that is set exactly when the element's residue is zero.
    pub fn alloc_is_zero(&self, cs: &mut Circuit) -> (r: bool)
        requires
            self.wf(),
        ensures
            r == (fpm(self.as_int()) == 0),
            final(cs).constraints == count_add(old(cs).constraints, 14),
            final(cs).satisfied == old(cs).satisfied,
    {
        let rd = self.residue();
        cs.bump(14);
        digits_are_zero(&rd)
    }

    /// Choose between two equally shaped elements; the emitted constraint
    /// count does not depend on which branch is taken.
    pub fn conditionally_select(cs: &mut Circuit, z0: &Self, z1: &Self, condition: bool) -> (r:
        Self)
        requires
            z0.wf(),
            z1.wf(),
            z0.limbs@.len() == z1.limbs@.len(),
        ensures
            r.wf(),
            condition ==> r.limbs@ == z0.limbs@ && r.width == z0.width,
            !condition ==> r.limbs@ == z1.limbs@ && r.width == z1.width,
            final(cs).constraints == count_add(old(cs).constraints, z0.limbs@.len() as u64),
            final(cs).satisfied == old(cs).satisfied,
    {
        cs.bump(z0.limbs.len() as u64);
        if condition {
            z0.duplicate()
        } else {
            z1.duplicate()
        }
    }

    /// The circuit constant zero.
    pub fn zero() -> (r: Self)
        ensures
            r.canonical(),
            r.spec_val() == 0,
    {
        let z = Fp::zero();
        Self::from_canonical_digits(&z.limbs)
    }

    /// The circuit constant one.
    pub fn one() -> (r: Self)
        ensures
            r.canonical(),
            r.spec_val() == 1,
    {
        let o = Fp::one();
        Self::from_canonical_digits(&o.limbs)
    }
}

/// A vector of zero limbs.
#[verifier::loop_isolation(false)]
fn zero_limbs(n: usize) -> (r: Vec<u128>)
    ensures
        r@.len() == n,
        limbs_val(r@) == 0,
        forall|k: int| 0 <= k < n ==> r@[k] == 0u128,
{
    let mut r: Vec<u128> = Vec::new();
    let mut i: usize = 0;
    while i < n
        invariant
            i <= n,
            r@.len() == i,
            limbs_val(r@) == 0,
            forall|k: int| 0 <= k < i ==> r@[k] == 0u128,
        decreases n - i,
    {
        proof {
            lemma_limbs_val_snoc(r@, 0u128);
        }
        r.push(0u128);
        i = i + 1;
    }
    r
}

impl AllocatedFieldElement {
    /// The polynomial product of the limb vectors: exact at the value level,
    /// the result width is the sum of the operands' widths plus headroom for
    /// the accumulated cross terms.
    #[verifier::loop_isolation(false)]
    #[verifier::rlimit(60)]
    fn mul_limbs(&self, value: &Self) -> (r: Self)
        requires
            self.wf(),
            value.wf(),
            self.width + value.width <= 120,
            self.limbs@.len() + value.limbs@.len() <= 65,
        ensures
            r.wf(),
            r.spec_val() == self.spec_val() * value.spec_val(),
            r.limbs@.len() == self.limbs@.len() + value.limbs@.len() - 1,
            r.width == self.width + value.width + 6,
    {
        let la = self.limbs.len();
        let lb = value.limbs.len();
        let n = la + lb - 1;
        let ghost az = self.limbs@;
        let ghost bz = value.limbs@;
        let ghost tmax = (pow2(self.width as nat) - 1) * (pow2(value.width as nat) - 1);
        let mut out: Vec<u128> = zero_limbs(n);
        let mut i: usize = 0;
        proof {
            lemma_pow2_pos(self.width as nat);
            lemma_pow2_pos(value.width as nat);
            lemma_pow2_pos((self.width + value.width) as nat);
            lemma_pow2_adds(self.width as nat, value.width as nat);
            lemma2_to64();
            lemma_pow2_adds(6, (self.width + value.width) as nat);
            lemma_pow2_le((self.width + value.width + 6) as nat, 126);
            lemma_pow2_125_126();
            assert((pow2(self.width as nat) - 1) * (pow2(value.width as nat) - 1)
                < pow2(self.width as nat) * pow2(value.width as nat)) by (nonlinear_arith)
                requires pow2(self.width as nat) >= 1 && pow2(value.width as nat) >= 1;
            assert(az.take(0) =~= Seq::<u128>::empty());
            assert(limbs_val(az.take(0)) * limbs_val(bz) == 0) by (nonlinear_arith)
                requires limbs_val(az.take(0)) == 0;
            assert(forall|k: int| 0 <= k < n ==> out@[k] <= 0 * tmax) by {
                assert(0 * tmax == 0) by (nonlinear_arith);
            }
        }
        while i < la
            invariant
                i <= la,
                out@.len() == n,
                limbs_val(out@) == limbs_val(az.take(i as int)) * limbs_val(bz),
                forall|k: int| 0 <= k < n ==> out@[k] <= i * tmax,
            decreases la - i,
        {
            let mut j: usize = 0;
            proof {
                assert(bz.take(0) =~= Seq::<u128>::empty());
                assert(az[i as int] * limbs_val(bz.take(0)) * pow2((32 * i) as nat) == 0)
                    by (nonlinear_arith)
                    requires limbs_val(bz.take(0)) == 0;
                lemma_mul_inequality(i as int, i + 1, tmax as int);
            }
            while j < lb
                invariant
                    i < la,
                    j <= lb,
                    out@.len() == n,
                    limbs_val(out@) == limbs_val(az.take(i as int)) * limbs_val(bz) + az[i as int]
                        * limbs_val(bz.take(j as int)) * pow2((32 * i) as nat),
                    forall|k: int| 0 <= k < n && k < i + j ==> out@[k] <= (i + 1) * tmax,
                    forall|k: int| i + j <= k < n ==> out@[k] <= i * tmax,
                decreases lb - j,
            {
                proof {
                    lemma_mul_upper_bound(
                        az[i as int] as int,
                        pow2(self.width as nat) - 1,
                        bz[j as int] as int,
                        pow2(value.width as nat) - 1,
                    );
                    lemma_mul_inequality(i as int, la as int, tmax as int);
                    lemma_mul_inequality(i + 1, la as int, tmax as int);
                    lemma_mul_inequality(la as int, 64, tmax as int);
                    assert(64 * tmax < 64 * (pow2(self.width as nat) * pow2(value.width as nat)));
                    assert((i + 1) * tmax == i * tmax + tmax) by (nonlinear_arith);
                }
                let term: u128 = self.limbs[i] * value.limbs[j];
                let k = i + j;
                let cur = out[k];
                proof {
                    lemma_limbs_val_update(out@, k as int, (cur + term) as u128);
                    let pk = pow2((32 * k) as nat);
                    assert((cur + term) * pk == cur * pk + term * pk) by (nonlinear_arith);
                    lemma_limbs_val_take_succ(bz, j as int);
                    let pi = pow2((32 * i) as nat);
                    let pj = pow2((32 * j) as nat);
                    lemma_pow2_adds((32 * i) as nat, (32 * j) as nat);
                    lemma_mul_is_commutative(pj as int, pi as int);
                    let x = limbs_val(bz.take(j as int));
                    assert(az[i as int] * (x + bz[j as int] * pj) * pi == az[i as int] * x * pi + (
                    az[i as int] * bz[j as int]) * (pi * pj)) by (nonlinear_arith);
                    assert(term == az[i as int] * bz[j as int]);
                }
                out.set(k, cur + term);
                j = j + 1;
            }
            proof {
                assert(bz.take(lb as int) =~= bz);
                lemma_limbs_val_take_succ(az, i as int);
                let pi = pow2((32 * i) as nat);
                let y = limbs_val(az.take(i as int));
                assert((y + az[i as int] * pi) * limbs_val(bz) == y * limbs_val(bz) + az[i as int]
                    * limbs_val(bz) * pi) by (nonlinear_arith);
                lemma_mul_inequality(i as int, i + 1, tmax as int);
            }
            i = i + 1;
        }
        proof {
            assert(az.take(la as int) =~= az);
            lemma_mul_inequality(la as int, 64, tmax as int);
            assert(64 * tmax < 64 * (pow2(self.width as nat) * pow2(value.width as nat)));
        }
        AllocatedFieldElement { limbs: out, width: self.width + value.width + 6 }
    }

    /// Limb-wise polynomial multiplication: the product limbs are allocated
    /// and constrained, one constraint per result limb, and the tracked
    /// width grows multiplicatively.
    pub fn mul(&self, cs: &mut Circuit, value: &Self) -> (r: Self)
        requires
            self.wf(),
            value.wf(),
            self.width + value.width <= 120,
            self.limbs@.len() + value.limbs@.len() <= 65,
        ensures
            r.wf(),
            r.spec_val() == self.spec_val() * value.spec_val(),
            r.limbs@.len() == self.limbs@.len() + value.limbs@.len() - 1,
            r.width == self.width + value.width + 6,
            final(cs).constraints == count_add(
                old(cs).constraints,
                (self.limbs@.len() + value.limbs@.len() - 1) as u64,
            ),
            final(cs).satisfied == old(cs).satisfied,
    {
        let n = self.limbs.len() + value.limbs.len() - 1;
        cs.bump(n as u64);
        self.mul_limbs(value)
    }

    /// Squaring, as the polynomial product with itself.
    pub fn square(&self, cs: &mut Circuit) -> (r: Self)
        requires
            self.wf(),
            self.width <= 60,
            self.limbs@.len() <= 32,
        ensures
            r.wf(),
            r.spec_val() == self.spec_val() * self.spec_val(),
            r.limbs@.len() == 2 * self.limbs@.len() - 1,
            r.width == 2 * self.width + 6,
            final(cs).constraints == count_add(
                old(cs).constraints,
                (2 * self.limbs@.len() - 1) as u64,
            ),
            final(cs).satisfied == old(cs).satisfied,
    {
        self.mul(cs, self)
    }

    /// Multiplication by a small constant; free of constraints, the width
    /// grows by the constant's width.
    #[verifier::loop_isolation(false)]
    pub fn mul_const(&self, cs: &mut Circuit, value: u32) -> (r: Self)
        requires
            self.wf(),
            self.width <= 94,
        ensures
            r.wf(),
            r.spec_val() == value * self.spec_val(),
            r.limbs@.len() == self.limbs@.len(),
            r.width == self.width + 32,
            final(cs).constraints == old(cs).constraints,
            final(cs).satisfied == old(cs).satisfied,
    {
        let la = self.limbs.len();
        let ghost az = self.limbs@;
        let mut out: Vec<u128> = Vec::new();
        let mut i: usize = 0;
        proof {
            lemma_pow2_adds(self.width as nat, 32);
            lemma_pow2_32_table();
            lemma_pow2_le((self.width + 32) as nat, 126);
            lemma_pow2_125_126();
            assert(az.take(0) =~= Seq::<u128>::empty());
            assert(value * limbs_val(az.take(0)) == 0) by (nonlinear_arith)
                requires limbs_val(az.take(0)) == 0;
        }
        while i < la
            invariant
                i <= la,
                out@.len() == i,
                limbs_val(out@) == value * limbs_val(az.take(i as int)),
                forall|k: int| 0 <= k < i ==> out@[k] < pow2((self.width + 32) as nat),
            decreases la - i,
        {
            proof {
                lemma_mul_upper_bound(
                    az[i as int] as int,
                    pow2(self.width as nat) - 1,
                    value as int,
                    pow2(32) - 1,
                );
                assert((pow2(self.width as nat) - 1) * (pow2(32) - 1) < pow2(self.width as nat)
                    * pow2(32)) by (nonlinear_arith)
                    requires pow2(self.width as nat) >= 1 && pow2(32) >= 1;
                lemma_limbs_val_snoc(out@, (self.limbs@[i as int] * value as u128) as u128);
                lemma_limbs_val_take_succ(az, i as int);
                let pi = pow2((32 * i) as nat);
                let x = limbs_val(az.take(i as int));
                assert(value * (x + az[i as int] * pi) == value * x + (az[i as int] * value) * pi)
                    by (nonlinear_arith);
            }
            let limb: u128 = self.limbs[i] * (value as u128);
            out.push(limb);
            i = i + 1;
        }
        proof {
            assert(az.take(la as int) =~= az);
        }
        AllocatedFieldElement { limbs: out, width: self.width + 32 }
    }

    /// Limb-wise subtraction through a padding multiple of the prime, which
    /// keeps every limb nonnegative; free of constraints.
    #[verifier::loop_isolation(false)]
    #[verifier::rlimit(60)]
    pub fn sub(&self, cs: &mut Circuit, value: &Self) -> (r: Self)
        requires
            self.wf(),
            value.wf(),
            self.width <= 124,
            value.width <= 123,
        ensures
            r.wf(),
            cong(r.as_int(), self.as_int() - value.as_int()),
            r.limbs@.len() == (if self.limbs@.len() >= 12 && self.limbs@.len()
                >= value.limbs@.len() {
                self.limbs@.len()
            } else {
                (if value.limbs@.len() >= 12 {
                    value.limbs@.len()
                } else {
                    12
                })
            }),
            r.width == (if self.width >= value.width + 1 {
                self.width as int
            } else {
                value.width + 1
            }) + 1,
            final(cs).constraints == old(cs).constraints,
            final(cs).satisfied == old(cs).satisfied,
    {
        let la = self.limbs.len();
        let lb = value.limbs.len();
        let wb = value.width;
        // A multiple of the prime whose limbs dominate the subtrahend's.
        let two_wb = pow2_u128(wb);
        let mut t: Vec<u128> = Vec::new();
        let mut i: usize = 0;
        proof {
            lemma_pow2_le(wb as nat, 123);
            lemma_pow2_strictly_increases(wb as nat, 126);
            lemma_pow2_125_126();
            lemma_pow2_32_table();
        }
        while i < lb
            invariant
                i <= lb,
                t@.len() == i,
                forall|k: int| 0 <= k < i ==> t@[k] == two_wb,
            decreases lb - i,
        {
            t.push(two_wb);
            i = i + 1;
        }
        proof {
            self.lemma_limbs_in_carrier();
            value.lemma_limbs_in_carrier();
            lemma_pow2_le(wb as nat, 126);
            lemma_p_below_384();
        }
        let td = normalize(&t);
        let p = p_digits();
        let (q, rem) = big_divmod(&td, &p);
        proof {
            lemma_pow2_32_table();
        }
        let rem12 = pad12(&rem);
        let c = sub_digits(&p, &rem12);
        let cw = widen_digits(&c);
        // the padding vector: the dominating limbs plus the correction
        let lg: usize = if lb >= 12 {
            lb
        } else {
            12
        };
        let mut g: Vec<u128> = Vec::new();
        let mut i2: usize = 0;
        proof {
            assert(t@.take(0) =~= Seq::<u128>::empty());
            assert(cw@.take(0) =~= Seq::<u128>::empty());
            assert(g@.take(0) =~= Seq::<u128>::empty());
        }
        while i2 < lg
            invariant
                i2 <= lg,
                g@.len() == i2,
                lg == (if lb >= 12 {
                    lb
                } else {
                    12
                }),
                t@.len() == lb,
                cw@.len() == 12,
                forall|k: int| 0 <= k < lb ==> t@[k] == two_wb,
                forall|k: int| 0 <= k < 12 ==> cw@[k] < 0x1_0000_0000u128,
                limbs_val(g@) == limbs_val(t@.take(if i2 <= lb {
                    i2 as int
                } else {
                    lb as int
                })) + limbs_val(cw@.take(if i2 <= 12 {
                    i2 as int
                } else {
                    12
                })),
                forall|k: int| 0 <= k < i2 ==> g@[k] < pow2((wb + 1) as nat),
                forall|k: int| 0 <= k < i2 && k < lb ==> g@[k] >= two_wb,
            decreases lg - i2,
        {
            let gt: u128 = if i2 < lb {
                two_wb
            } else {
                0
            };
            let gc: u128 = if i2 < 12 {
                cw[i2]
            } else {
                0
            };
            let limb: u128 = gt + gc;
            proof {
                lemma_limbs_val_snoc(g@, limb);
                lemma_pow2_adds(wb as nat, 1);
                lemma2_to64();
                lemma_pow2_le(32, wb as nat);
                if i2 < lb {
                    lemma_limbs_val_take_succ(t@, i2 as int);
                } else {
                    assert(t@.take(lb as int) =~= t@);
                }
                if i2 < 12 {
                    lemma_limbs_val_take_succ(cw@, i2 as int);
                } else {
                    assert(cw@.take(12) =~= cw@);
                }
                assert((gt + gc) * pow2((32 * i2) as nat) == gt * pow2((32 * i2) as nat) + gc
                    * pow2((32 * i2) as nat)) by (nonlinear_arith);
                assert(gt == 0 ==> gt * pow2((32 * i2) as nat) == 0) by (nonlinear_arith);
                assert(gc == 0 ==> gc * pow2((32 * i2) as nat) == 0) by (nonlinear_arith);
            }
            g.push(limb);
            i2 = i2 + 1;
        }
        proof {
            assert(t@.take(lb as int) =~= t@);
            assert(cw@.take(12) =~= cw@);
            // limbs_val(g@) == t + (p - rem) == (q + 1) * p, a multiple of the prime
        }
        // r = self + g - value, limb-wise
        let lr: usize = if la >= lg {
            la
        } else {
            lg
        };
        let pa = pad_limbs(&self.limbs, lr);
        let pg = pad_limbs(&g, lr);
        let pb = pad_limbs(&value.limbs, lr);
        let w: u32 = if self.width >= wb + 1 {
            self.width
        } else {
            wb + 1
        };
        let mut out: Vec<u128> = Vec::new();
        let mut i3: usize = 0;
        proof {
            lemma_pow2_le(self.width as nat, w as nat);
            lemma_pow2_le((wb + 1) as nat, w as nat);
            lemma_pow2_le(w as nat, 125);
            lemma_pow2_adds(w as nat, 1);
            lemma2_to64();
            assert(pa@.take(0) =~= Seq::<u128>::empty());
            assert(pg@.take(0) =~= Seq::<u128>::empty());
            assert(pb@.take(0) =~= Seq::<u128>::empty());
            assert(forall|k: int| 0 <= k < lb ==> pb@[k] < pow2(wb as nat));
            assert(forall|k: int| lb <= k < lr ==> pb@[k] == 0);
        }
        while i3 < lr
            invariant
                i3 <= lr == pa@.len() == pg@.len() == pb@.len(),
                out@.len() == i3,
                limbs_val(out@) + limbs_val(pb@.take(i3 as int)) == limbs_val(pa@.take(i3 as int))
                    + limbs_val(pg@.take(i3 as int)),
                forall|k: int| 0 <= k < i3 ==> out@[k] < pow2((w + 1) as nat),
            decreases lr - i3,
        {
            proof {
                if i3 < lb {
                    assert(pg@[i3 as int] == g@[i3 as int]);
                    assert(g@[i3 as int] >= two_wb);
                    assert(pb@[i3 as int] == value.limbs@[i3 as int]);
                    assert(pb@[i3 as int] < two_wb);
                } else {
                    assert(pb@[i3 as int] == 0);
                }
                lemma_limbs_val_snoc(out@, (pa@[i3 as int] + pg@[i3 as int] - pb@[i3 as int]) as u128);
                lemma_limbs_val_take_succ(pa@, i3 as int);
                lemma_limbs_val_take_succ(pg@, i3 as int);
                lemma_limbs_val_take_succ(pb@, i3 as int);
                let pi = pow2((32 * i3) as nat);
                assert((pa@[i3 as int] + pg@[i3 as int] - pb@[i3 as int]) * pi == pa@[i3 as int]
                    * pi + pg@[i3 as int] * pi - pb@[i3 as int] * pi) by (nonlinear_arith);
            }
            let s: u128 = pa[i3] + pg[i3] - pb[i3];
            out.push(s);
            i3 = i3 + 1;
        }
        proof {
            assert(pa@.take(lr as int) =~= pa@);
            assert(pg@.take(lr as int) =~= pg@);
            assert(pb@.take(lr as int) =~= pb@);
            // out == self + (q + 1) * p - value over the integers
            let qv = digits_val(q@) as int;
            let gv = limbs_val(g@) as int;
            assert(gv == qv * fp_modulus() + fp_modulus());
            assert(limbs_val(out@) == self.as_int() + gv - value.as_int());
            lemma_cong_add_multiple(self.as_int() - value.as_int(), qv + 1);
            assert((qv + 1) * fp_modulus() == qv * fp_modulus() + 1 * fp_modulus())
                by (nonlinear_arith);
        }
        AllocatedFieldElement { limbs: out, width: w + 1 }
    }

    /// Additive inverse, as subtraction from zero; free of constraints.
    pub fn neg(&self, cs: &mut Circuit) -> (r: Self)
        requires
            self.wf(),
            self.width <= 123,
        ensures
            r.wf(),
            cong(r.as_int(), -self.as_int()),
            r.limbs@.len() == (if self.limbs@.len() >= 12 {
                self.limbs@.len()
            } else {
                12
            }),
            r.width == self.width + 2,
            final(cs).constraints == old(cs).constraints,
            final(cs).satisfied == old(cs).satisfied,
    {
        let z = Self::zero();
        z.sub(cs, self)
    }

    /// Division through a witnessed quotient: the quotient limbs are
    /// allocated off-circuit from the plaintext inverse and the product
    /// constraint `q * divisor = dividend` is emitted and checked.  A
    /// divisor whose residue is zero is rejected before anything is
    /// allocated.
    pub fn div_unchecked(&self, cs: &mut Circuit, value: &Self) -> (r: Result<
        Self,
        SynthError,
    >)
        requires
            self.wf(),
            value.wf(),
            value.width <= 88,
            value.limbs@.len() <= 53,
        ensures
            fpm(value.as_int()) == 0 <==> (r matches Err(e) && e == SynthError::DivisionByZero),
            invertible(value.as_int()) ==> r is Ok,
            r matches Ok(q) ==> q.canonical() && cong(q.as_int() * value.as_int(), self.as_int()),
            final(cs).satisfied == old(cs).satisfied,
    {
        let yr = value.residue();
        if digits_are_zero(&yr) {
            proof {
                lemma_zero_not_invertible(value.as_int());
            }
            return Err(SynthError::DivisionByZero);
        }
        let xr = self.residue();
        let p = p_digits();
        proof {
            lemma_p_below_384();
        }
        let inv = big_modinv(&yr, &p);
        match inv {
            None => {
                proof {
                    // no digit value below the prime clears the product, so
                    // the divisor's residue class has no inverse
                    if invertible(value.as_int()) {
                        let v = choose|v: int|
                            0 <= v < fp_modulus() && #[trigger] fpm(v * value.as_int()) == 1;
                        lemma_cong_mul(v, v, value.as_int(), digits_val(yr@) as int);
                        let vn = v as nat;
                        assert((vn * digits_val(yr@)) % fp_modulus() != 1);
                        assert(fpm(v * (digits_val(yr@) as int)) == ((vn * digits_val(yr@))
                            % fp_modulus()));
                        assert(false);
                    }
                }
                Err(SynthError::Unsatisfiable)
            },
            Some(iv) => {
                proof {
                    lemma_pow2_32_table();
                }
                let iv12 = pad12(&iv);
                let xe = Self::from_canonical_digits(&xr);
                let ie = Self::from_canonical_digits(&iv12);
                let we = xe.mul_limbs(&ie);
                let wr = we.residue();
                let qe = Self::from_canonical_digits(&wr);
                cs.bump(12);
                let prod = qe.mul(cs, value);
                proof {
                    let pm = fp_modulus() as int;
                    let xv = self.as_int();
                    let yv = value.as_int();
                    let xrv = digits_val(xr@) as int;
                    let yrv = digits_val(yr@) as int;
                    let ivv = digits_val(iv@) as int;
                    let qv = qe.as_int();
                    // q == xr * iv mod p
                    lemma_cong_fpm(xrv * ivv);
                    // iv * yr == 1 mod p
                    lemma_fpm_small(1);
                    assert(fpm(ivv * yrv) == (digits_val(iv@) * digits_val(yr@)) % fp_modulus());
                    // q * y == xr * iv * y == x * (iv * y) == x * 1 == x  (mod p)
                    lemma_cong_mul(qv, xrv * ivv, yv, yv);
                    lemma_mul_is_associative(xrv, ivv, yv);
                    lemma_cong_fpm(yv);
                    lemma_cong_mul(ivv, ivv, yrv, yv);
                    lemma_cong_mul(xrv, xrv, ivv * yv, 1);
                    lemma_mul_basics(xrv);
                    lemma_cong_fpm(xv);
                }
                Self::assert_is_equal(cs, &prod, self);
                Ok(qe)
            },
        }
    }
}

} // verus!
