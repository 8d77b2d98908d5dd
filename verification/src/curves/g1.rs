//! The G1 point gadget: an affine short-Weierstrass point as a pair of
//! base-field elements, with the chord-and-tangent group law.  The slope of
//! each chord or tangent is obtained by witnessed division, so every
//! operation's contract pins the result through the chord or tangent
//! congruences; a coincident-x addition surfaces as the division-by-zero
//! failure of the underlying `div_unchecked`, by design.  The sentinel
//! `(0, 0)` encodes the point at infinity but is not special-cased here.

use vstd::prelude::*;
use crate::arith::{
    fpm, cong, endo_beta, imax, lemma_cong_sub, lemma_cong_add, lemma_cong_mul, lemma_cong_fpm,
    lemma_fpm_small, fp_modulus, invertible, fp_inv, lemma_invertible_cong, lemma_fp_inv_cong,
    lemma_quotient_unique,
};
use crate::circuit::{Circuit, SynthError, count_add};
use crate::fields::fp::{Fp, AllocatedFieldElement, beta_digits};

verus! {

/// The chord relation with an explicit slope: the slope spans the two
/// points, and the result is the chord's third intersection, reflected.
pub open spec fn g1_add_rel_with(
    lam: int,
    px: int,
    py: int,
    qx: int,
    qy: int,
    rx: int,
    ry: int,
) -> bool {
    cong(lam * (qx - px), qy - py) && cong(rx, lam * lam - px - qx) && cong(
        ry,
        lam * (px - rx) - py,
    )
}

/// The chord relation, with some slope.
pub open spec fn g1_add_rel(px: int, py: int, qx: int, qy: int, rx: int, ry: int) -> bool {
    exists|lam: int| g1_add_rel_with(lam, px, py, qx, qy, rx, ry)
}

/// The tangent relation with an explicit slope.
pub open spec fn g1_double_rel_with(lam: int, px: int, py: int, rx: int, ry: int) -> bool {
    cong(lam * (2 * py), 3 * (px * px)) && cong(rx, lam * lam - 2 * px) && cong(
        ry,
        lam * (px - rx) - py,
    )
}

/// The tangent relation, with some slope.
pub open spec fn g1_double_rel(px: int, py: int, rx: int, ry: int) -> bool {
    exists|lam: int| g1_double_rel_with(lam, px, py, rx, ry)
}

/// `n`-fold repeated doubling, as a chain of tangent relations.
pub open spec fn g1_double_chain(px: int, py: int, rx: int, ry: int, n: nat) -> bool
    decreases n,
{
    if n == 0 {
        cong(rx, px) && cong(ry, py)
    } else {
        exists|mx: int, my: int|
            g1_double_chain(px, py, mx, my, (n - 1) as nat) && #[trigger] g1_double_rel(
                mx,
                my,
                rx,
                ry,
            )
    }
}


/// The shared-slope tripling relations with explicit slopes.
pub open spec fn g1_triple_rel_with(
    l1: int,
    l2: int,
    x2: int,
    px: int,
    py: int,
    rx: int,
    ry: int,
) -> bool {
    cong(l1 * (2 * py), 3 * (px * px)) && cong(x2, l1 * l1 - 2 * px) && cong(
        (l2 + l1) * (px - x2),
        2 * py,
    ) && cong(rx, l2 * l2 - px - x2) && cong(ry, l2 * (px - rx) - py)
}

/// The shared-slope tripling relations, with some slopes.
pub open spec fn g1_triple_rel(px: int, py: int, rx: int, ry: int) -> bool {
    exists|l1: int, l2: int, x2: int| g1_triple_rel_with(l1, l2, x2, px, py, rx, ry)
}

/// The fused double-and-add relations with explicit slopes.
pub open spec fn g1_dna_rel_with(
    l1: int,
    l2: int,
    x2: int,
    px: int,
    py: int,
    qx: int,
    qy: int,
    rx: int,
    ry: int,
) -> bool {
    cong(l1 * (qx - px), qy - py) && cong(x2, l1 * l1 - px - qx) && cong(
        (0 - (l1 + l2)) * (x2 - px),
        2 * py,
    ) && cong(rx, l2 * l2 - px - x2) && cong(ry, l2 * (px - rx) - py)
}

/// The fused double-and-add relations, with some slopes.
pub open spec fn g1_dna_rel(px: int, py: int, qx: int, qy: int, rx: int, ry: int) -> bool {
    exists|l1: int, l2: int, x2: int| g1_dna_rel_with(l1, l2, x2, px, py, qx, qy, rx, ry)
}


/// The tangent slope of a point with invertible doubled ordinate.
pub open spec fn g1_tangent_slope(px: int, py: int) -> int {
    3 * (px * px) * fp_inv(2 * py)
}

/// The abscissa of the tangent double.
pub open spec fn g1_tangent_x(px: int, py: int) -> int {
    g1_tangent_slope(px, py) * g1_tangent_slope(px, py) - 2 * px
}

/// The ordinate of the tangent double.
pub open spec fn g1_tangent_y(px: int, py: int) -> int {
    g1_tangent_slope(px, py) * (px - g1_tangent_x(px, py)) - py
}

/// The chord slope of two points with invertible abscissa difference.
pub open spec fn g1_chord_slope(px: int, py: int, qx: int, qy: int) -> int {
    (qy - py) * fp_inv(qx - px)
}

/// The abscissa of the chord sum.
pub open spec fn g1_chord_x(px: int, py: int, qx: int, qy: int) -> int {
    g1_chord_slope(px, py, qx, qy) * g1_chord_slope(px, py, qx, qy) - px - qx
}

/// Whether `n` tangent doublings in a row are defined: every step's doubled
/// ordinate stays invertible.
pub open spec fn g1_double_n_ok(px: int, py: int, n: nat) -> bool
    decreases n,
{
    n == 0 || (invertible(2 * py) && g1_double_n_ok(
        g1_tangent_x(px, py),
        g1_tangent_y(px, py),
        (n - 1) as nat,
    ))
}

/// A slope that clears an invertible doubled ordinate is the tangent slope,
/// so the tangent relation pins the double to the tangent image.
proof fn lemma_tangent_step(lam: int, px: int, py: int, rx: int, ry: int)
    requires
        invertible(2 * py),
        cong(lam * (2 * py), 3 * (px * px)),
        cong(rx, lam * lam - 2 * px),
        cong(ry, lam * (px - rx) - py),
    ensures
        cong(rx, g1_tangent_x(px, py)),
        cong(ry, g1_tangent_y(px, py)),
{
    let sl = g1_tangent_slope(px, py);
    lemma_quotient_unique(lam, 3 * (px * px), 2 * py);
    lemma_cong_mul(lam, sl, lam, sl);
    lemma_cong_sub(lam * lam, sl * sl, 2 * px, 2 * px);
    lemma_cong_sub(px, px, rx, g1_tangent_x(px, py));
    lemma_cong_mul(lam, sl, px - rx, px - g1_tangent_x(px, py));
    lemma_cong_sub(
        lam * (px - rx),
        sl * (px - g1_tangent_x(px, py)),
        py,
        py,
    );
}

/// The tangent relation of an invertible doubling pins the image.
proof fn lemma_double_rel_to_tangent(px: int, py: int, rx: int, ry: int)
    requires
        invertible(2 * py),
        g1_double_rel(px, py, rx, ry),
    ensures
        cong(rx, g1_tangent_x(px, py)),
        cong(ry, g1_tangent_y(px, py)),
{
    let lam = choose|lam: int| g1_double_rel_with(lam, px, py, rx, ry);
    lemma_tangent_step(lam, px, py, rx, ry);
}

/// The doubling-chain feasibility predicate depends only on the residue
/// classes of the starting coordinates.
proof fn lemma_double_n_ok_cong(ax: int, ay: int, bx: int, by: int, n: nat)
    requires
        cong(ax, bx),
        cong(ay, by),
    ensures
        g1_double_n_ok(ax, ay, n) == g1_double_n_ok(bx, by, n),
    decreases n,
{
    if n > 0 {
        lemma_cong_add(ay, by, ay, by);
        lemma_invertible_cong(2 * ay, 2 * by);
        if invertible(2 * ay) {
            // the tangent images are congruent coordinate for coordinate
            lemma_cong_mul(ax, bx, ax, bx);
            lemma_cong_add(ax * ax, bx * bx, ax * ax, bx * bx);
            lemma_cong_add(ax * ax + ax * ax, bx * bx + bx * bx, ax * ax, bx * bx);
            assert(cong(3 * (ax * ax), 3 * (bx * bx)));
            lemma_fp_inv_cong(2 * ay, 2 * by);
            lemma_cong_mul(
                3 * (ax * ax),
                3 * (bx * bx),
                fp_inv(2 * ay),
                fp_inv(2 * by),
            );
            let sa = g1_tangent_slope(ax, ay);
            let sb = g1_tangent_slope(bx, by);
            lemma_cong_mul(sa, sb, sa, sb);
            lemma_cong_add(ax, bx, ax, bx);
            lemma_cong_sub(sa * sa, sb * sb, 2 * ax, 2 * bx);
            lemma_cong_sub(ax, bx, g1_tangent_x(ax, ay), g1_tangent_x(bx, by));
            lemma_cong_mul(
                sa,
                sb,
                ax - g1_tangent_x(ax, ay),
                bx - g1_tangent_x(bx, by),
            );
            lemma_cong_sub(
                sa * (ax - g1_tangent_x(ax, ay)),
                sb * (bx - g1_tangent_x(bx, by)),
                ay,
                by,
            );
            lemma_double_n_ok_cong(
                g1_tangent_x(ax, ay),
                g1_tangent_y(ax, ay),
                g1_tangent_x(bx, by),
                g1_tangent_y(bx, by),
                (n - 1) as nat,
            );
        }
    }
}

/// A plaintext affine point.
pub struct AffinePoint {
    pub x: Fp,
    pub y: Fp,
}

impl AffinePoint {
    pub open spec fn wf(&self) -> bool {
        self.x.wf() && self.y.wf()
    }
}

/// An affine G1 point allocated in the circuit.
pub struct AllocatedG1Point {
    pub x: AllocatedFieldElement,
    pub y: AllocatedFieldElement,
}

impl AllocatedG1Point {
    pub open spec fn wf(&self) -> bool {
        self.x.wf() && self.y.wf()
    }

    /// Both coordinates in canonical reduced form.
    pub open spec fn reduced(&self) -> bool {
        self.x.canonical() && self.y.canonical()
    }

    /// Canonical abscissa, near-canonical ordinate: the shape the group-law
    /// operations accept, preserved by negation without a reduction.
    pub open spec fn operand(&self) -> bool {
        self.x.canonical() && self.y.wf() && self.y.width <= 66 && self.y.limbs@.len() == 12
    }

    pub open spec fn x_int(&self) -> int {
        self.x.as_int()
    }

    pub open spec fn y_int(&self) -> int {
        self.y.as_int()
    }

    pub fn alloc_element(cs: &mut Circuit, value: &AffinePoint) -> (r: Self)
        requires
            value.wf(),
        ensures
            r.reduced(),
            r.operand(),
            r.x_int() == value.x.as_int(),
            r.y_int() == value.y.as_int(),
            final(cs).constraints == count_add(count_add(old(cs).constraints, 12), 12),
            final(cs).satisfied == old(cs).satisfied,
    {
        let x = AllocatedFieldElement::alloc_element(cs, &value.x);
        let y = AllocatedFieldElement::alloc_element(cs, &value.y);
        AllocatedG1Point { x, y }
    }

    /// Extract the plaintext coordinates of a reduced point.
    pub fn to_affine(&self) -> (r: AffinePoint)
        requires
            self.reduced(),
        ensures
            r.wf(),
            r.x.as_int() == self.x_int(),
            r.y.as_int() == self.y_int(),
    {
        AffinePoint { x: self.x.to_value(), y: self.y.to_value() }
    }

    pub fn assert_is_equal(cs: &mut Circuit, a: &Self, b: &Self)
        requires
            a.wf(),
            b.wf(),
        ensures
            final(cs).constraints == count_add(count_add(old(cs).constraints, 13), 13),
            final(cs).satisfied == (old(cs).satisfied && cong(a.x_int(), b.x_int()) && cong(
                a.y_int(),
                b.y_int(),
            )),
    {
        AllocatedFieldElement::assert_is_equal(cs, &a.x, &b.x);
        AllocatedFieldElement::assert_is_equal(cs, &a.y, &b.y);
    }

    pub fn reduce(&self, cs: &mut Circuit) -> (r: Self)
        requires
            self.wf(),
        ensures
            r.reduced(),
            r.operand(),
            cong(r.x_int(), self.x_int()),
            cong(r.y_int(), self.y_int()),
            final(cs).constraints == count_add(count_add(old(cs).constraints, 13), 13),
            final(cs).satisfied == old(cs).satisfied,
    {
        let x = self.x.reduce(cs);
        let y = self.y.reduce(cs);
        proof {
            lemma_cong_fpm(self.x_int());
            lemma_cong_fpm(self.y_int());
        }
        AllocatedG1Point { x, y }
    }

    pub fn assert_equality_to_constant(&self, cs: &mut Circuit, constant: &Self)
        requires
            self.reduced(),
            constant.reduced(),
        ensures
            final(cs).constraints == count_add(count_add(old(cs).constraints, 12), 12),
            final(cs).satisfied == (old(cs).satisfied && cong(self.x_int(), constant.x_int())
                && cong(self.y_int(), constant.y_int())),
    {
        self.x.assert_equality_to_constant(cs, &constant.x);
        self.y.assert_equality_to_constant(cs, &constant.y);
    }

    /// The curve endomorphism from the sextic twist: scale the abscissa by
    /// the cube root of unity, keep the ordinate.
    pub fn phi(&self, cs: &mut Circuit) -> (r: Self)
        requires
            self.operand(),
        ensures
            r.wf(),
            cong(r.x_int(), endo_beta() * self.x_int()),
            r.y_int() == self.y_int(),
            r.y.width == self.y.width,
            final(cs).satisfied == old(cs).satisfied,
    {
        let bd = beta_digits();
        let be = AllocatedFieldElement::from_canonical_digits(&bd);
        let x = be.mul(cs, &self.x);
        proof {
            lemma_cong_fpm(endo_beta() * self.x_int());
        }
        AllocatedG1Point { x, y: self.y.duplicate() }
    }

    /// Chord addition.  The formula divides by the difference of abscissas;
    /// coincident abscissas (a doubling, or a point plus its negation)
    /// surface as the division-by-zero failure.
    pub fn add(&self, cs: &mut Circuit, value: &Self) -> (r: Result<Self, SynthError>)
        requires
            self.operand(),
            value.operand(),
        ensures
            cong(value.x_int(), self.x_int()) <==> (r matches Err(e) && e
                == SynthError::DivisionByZero),
            invertible(value.x_int() - self.x_int()) ==> r is Ok,
            r matches Ok(p) ==> p.wf() && g1_add_rel(
                self.x_int(),
                self.y_int(),
                value.x_int(),
                value.y_int(),
                p.x_int(),
                p.y_int(),
            ),
            final(cs).satisfied == old(cs).satisfied,
    {
        let qypy = value.y.sub(cs, &self.y);
        let qxpx = value.x.sub(cs, &self.x);
        proof {
            lemma_invertible_cong(qxpx.as_int(), value.x_int() - self.x_int());
        }
        let lambda = match qypy.div_unchecked(cs, &qxpx) {
            Ok(l) => l,
            Err(e) => {
                proof {
                    lemma_cong_iff_diff(value.x_int(), self.x_int(), qxpx.as_int());
                }
                return Err(e);
            },
        };
        proof {
            lemma_cong_iff_diff(value.x_int(), self.x_int(), qxpx.as_int());
        }
        let lambda_sq = lambda.square(cs);
        let qxpx2 = self.x.add(cs, &value.x);
        let xr = lambda_sq.sub(cs, &qxpx2);
        let pxrx = self.x.sub(cs, &xr);
        let lambdapxrx = lambda.mul(cs, &pxrx);
        let yr = lambdapxrx.sub(cs, &self.y);
        proof {
            let lam = lambda.as_int();
            lemma_cong_mul(lam, lam, qxpx.as_int(), value.x_int() - self.x_int());
            lemma_cong_mul(lam, lam, pxrx.as_int(), self.x_int() - xr.as_int());
            lemma_cong_sub(
                lambdapxrx.as_int(),
                lam * (self.x_int() - xr.as_int()),
                self.y_int(),
                self.y_int(),
            );
            assert(g1_add_rel_with(
                lam,
                self.x_int(),
                self.y_int(),
                value.x_int(),
                value.y_int(),
                xr.as_int(),
                yr.as_int(),
            ));
        }
        Ok(AllocatedG1Point { x: xr, y: yr })
    }

    /// Negation: reflect across the x-axis; free of constraints.
    pub fn neg(&self, cs: &mut Circuit) -> (r: Self)
        requires
            self.operand(),
            self.y.width <= 64,
        ensures
            r.operand(),
            r.x_int() == self.x_int(),
            cong(r.y_int(), -self.y_int()),
            r.y.width == self.y.width + 2,
            final(cs).constraints == old(cs).constraints,
            final(cs).satisfied == old(cs).satisfied,
    {
        AllocatedG1Point { x: self.x.duplicate(), y: self.y.neg(cs) }
    }

    /// Subtraction, as addition of the negation.
    pub fn sub(&self, cs: &mut Circuit, value: &Self) -> (r: Result<Self, SynthError>)
        requires
            self.operand(),
            value.operand(),
            value.y.width <= 64,
        ensures
            cong(value.x_int(), self.x_int()) <==> (r matches Err(e) && e
                == SynthError::DivisionByZero),
            invertible(value.x_int() - self.x_int()) ==> r is Ok,
            r matches Ok(p) ==> p.wf() && exists|ny: int|
                #[trigger] cong(ny, -value.y_int()) && g1_add_rel(
                    self.x_int(),
                    self.y_int(),
                    value.x_int(),
                    ny,
                    p.x_int(),
                    p.y_int(),
                ),
            final(cs).satisfied == old(cs).satisfied,
    {
        let neg = value.neg(cs);
        let res = self.add(cs, &neg);
        res
    }

    /// Tangent doubling: slope `3x^2 / 2y`.  An ordinate congruent to zero
    /// surfaces as the division-by-zero failure.
    pub fn double(&self, cs: &mut Circuit) -> (r: Result<Self, SynthError>)
        requires
            self.operand(),
        ensures
            (fpm(2 * self.y_int()) == 0) <==> (r matches Err(e) && e
                == SynthError::DivisionByZero),
            invertible(2 * self.y_int()) ==> r is Ok,
            r matches Ok(p) ==> p.wf() && g1_double_rel(
                self.x_int(),
                self.y_int(),
                p.x_int(),
                p.y_int(),
            ),
            final(cs).satisfied == old(cs).satisfied,
    {
        let xx = self.x.square(cs);
        let xx3a = xx.mul_const(cs, 3);
        let y2 = self.y.double(cs);
        let lambda = match xx3a.div_unchecked(cs, &y2) {
            Ok(l) => l,
            Err(e) => {
                return Err(e);
            },
        };
        let x2 = self.x.double(cs);
        let lambda_sq = lambda.square(cs);
        let xr = lambda_sq.sub(cs, &x2);
        let pxrx = self.x.sub(cs, &xr);
        let lambdapxrx = lambda.mul(cs, &pxrx);
        let yr = lambdapxrx.sub(cs, &self.y);
        proof {
            let lam = lambda.as_int();
            lemma_cong_mul(lam, lam, y2.as_int(), 2 * self.y_int());
            lemma_cong_mul(lam, lam, pxrx.as_int(), self.x_int() - xr.as_int());
            lemma_cong_sub(
                lambdapxrx.as_int(),
                lam * (self.x_int() - xr.as_int()),
                self.y_int(),
                self.y_int(),
            );
            assert(g1_double_rel_with(
                lam,
                self.x_int(),
                self.y_int(),
                xr.as_int(),
                yr.as_int(),
            ));
        }
        Ok(AllocatedG1Point { x: xr, y: yr })
    }

    /// Repeated doubling with a reduction after every step, which keeps the
    /// limb widths of the chain bounded.
    #[verifier::loop_isolation(false)]
    #[verifier::rlimit(100)]
    pub fn double_n(&self, cs: &mut Circuit, n: usize) -> (r: Result<Self, SynthError>)
        requires
            self.operand(),
        ensures
            g1_double_n_ok(self.x_int(), self.y_int(), n as nat) ==> r is Ok,
            r matches Ok(p) ==> p.reduced() && g1_double_chain(
                self.x_int(),
                self.y_int(),
                p.x_int(),
                p.y_int(),
                n as nat,
            ),
            final(cs).satisfied == old(cs).satisfied,
    {
        let mut p = self.reduce(cs);
        let mut i: usize = 0;
        proof {
            lemma_cong_fpm(self.x_int());
            lemma_cong_fpm(self.y_int());
            if g1_double_n_ok(self.x_int(), self.y_int(), n as nat) {
                lemma_double_n_ok_cong(
                    self.x_int(),
                    self.y_int(),
                    p.x_int(),
                    p.y_int(),
                    n as nat,
                );
            }
        }
        while i < n
            invariant
                i <= n,
                p.reduced(),
                g1_double_chain(self.x_int(), self.y_int(), p.x_int(), p.y_int(), i as nat),
                g1_double_n_ok(self.x_int(), self.y_int(), n as nat) ==> g1_double_n_ok(
                    p.x_int(),
                    p.y_int(),
                    ((n - i) as nat),
                ),
                cs.satisfied == old(cs).satisfied,
            decreases n - i,
        {
            let ghost mx = p.x_int();
            let ghost my = p.y_int();
            proof {
                if g1_double_n_ok(self.x_int(), self.y_int(), n as nat) {
                    reveal_with_fuel(g1_double_n_ok, 2);
                    assert(g1_double_n_ok(mx, my, ((n - i) as nat)));
                    assert(invertible(2 * my));
                }
            }
            let val = match p.double(cs) {
                Ok(v) => v,
                Err(e) => {
                    proof {
                        // a feasible chain would have forced this doubling
                        // to succeed
                        if g1_double_n_ok(self.x_int(), self.y_int(), n as nat) {
                            assert(false);
                        }
                    }
                    return Err(e);
                },
            };
            let valr = val.reduce(cs);
            proof {
                assert(g1_double_rel(mx, my, val.x_int(), val.y_int()));
                lemma_double_rel_cong(
                    mx,
                    my,
                    val.x_int(),
                    val.y_int(),
                    valr.x_int(),
                    valr.y_int(),
                );
                assert(g1_double_rel(mx, my, valr.x_int(), valr.y_int()));
                assert(g1_double_chain(
                    self.x_int(),
                    self.y_int(),
                    valr.x_int(),
                    valr.y_int(),
                    (i + 1) as nat,
                )) by {
                    reveal_with_fuel(g1_double_chain, 2);
                    assert(g1_double_chain(
                        self.x_int(),
                        self.y_int(),
                        mx,
                        my,
                        (((i + 1) as nat) - 1) as nat,
                    ) && g1_double_rel(mx, my, valr.x_int(), valr.y_int()));
                }
                if g1_double_n_ok(self.x_int(), self.y_int(), n as nat) {
                    reveal_with_fuel(g1_double_n_ok, 2);
                    lemma_double_rel_to_tangent(mx, my, val.x_int(), val.y_int());
                    assert(cong(valr.x_int(), g1_tangent_x(mx, my)));
                    assert(cong(valr.y_int(), g1_tangent_y(mx, my)));
                    lemma_double_n_ok_cong(
                        g1_tangent_x(mx, my),
                        g1_tangent_y(mx, my),
                        valr.x_int(),
                        valr.y_int(),
                        ((n - i - 1) as nat),
                    );
                    assert(g1_double_n_ok(valr.x_int(), valr.y_int(), ((n - (i + 1)) as nat)));
                }
            }
            p = valr;
            i = i + 1;
        }
        Ok(p)
    }

    /// Combined double-then-add sharing one slope computation: cheaper than
    /// the two-step composition, mathematically the same chain of tangent
    /// and chord relations.
    #[verifier::rlimit(100)]
    #[verifier::spinoff_prover]
    pub fn triple(&self, cs: &mut Circuit) -> (r: Result<Self, SynthError>)
        requires
            self.operand(),
        ensures
            fpm(2 * self.y_int()) == 0 ==> (r matches Err(e) && e == SynthError::DivisionByZero),
            invertible(2 * self.y_int()) && invertible(
                self.x_int() - g1_tangent_x(self.x_int(), self.y_int()),
            ) ==> r is Ok,
            r matches Ok(p) ==> p.wf() && g1_triple_rel(
                self.x_int(),
                self.y_int(),
                p.x_int(),
                p.y_int(),
            ),
            final(cs).satisfied == old(cs).satisfied,
    {
        let xx = self.x.square(cs);
        let xx3a = xx.mul_const(cs, 3);
        let y2 = self.y.double(cs);
        let l1 = match xx3a.div_unchecked(cs, &y2) {
            Ok(l) => l,
            Err(e) => {
                return Err(e);
            },
        };
        let x2a = self.x.mul_const(cs, 2);
        let l1l1 = l1.square(cs);
        let x2 = l1l1.sub(cs, &x2a);
        let x1x2 = self.x.sub(cs, &x2);
        proof {
            if invertible(2 * self.y_int()) {
                lemma_triple_mid(
                    l1.as_int(),
                    x2.as_int(),
                    x1x2.as_int(),
                    self.x_int(),
                    self.y_int(),
                );
                lemma_invertible_cong(
                    x1x2.as_int(),
                    self.x_int() - g1_tangent_x(self.x_int(), self.y_int()),
                );
            }
        }
        let l2a = match y2.div_unchecked(cs, &x1x2) {
            Ok(l) => l,
            Err(e) => {
                return Err(e);
            },
        };
        let l2 = l2a.sub(cs, &l1);
        let l2l2 = l2.square(cs);
        let qxrx = x2.add(cs, &self.x);
        let xr = l2l2.sub(cs, &qxrx);
        let pxrx = self.x.sub(cs, &xr);
        let l2pxrx = l2.mul(cs, &pxrx);
        let yr = l2pxrx.sub(cs, &self.y);
        proof {
            lemma_triple_assemble(
                self.x_int(),
                self.y_int(),
                xx3a.as_int(),
                y2.as_int(),
                l1.as_int(),
                x2a.as_int(),
                x2.as_int(),
                x1x2.as_int(),
                l2a.as_int(),
                l2.as_int(),
                qxrx.as_int(),
                xr.as_int(),
                pxrx.as_int(),
                l2pxrx.as_int(),
                yr.as_int(),
            );
            assert(g1_triple_rel_with(
                l1.as_int(),
                l2.as_int(),
                x2.as_int(),
                self.x_int(),
                self.y_int(),
                xr.as_int(),
                yr.as_int(),
            ));
        }
        Ok(AllocatedG1Point { x: xr, y: yr })
    }

    /// Fused double-then-add sharing intermediate terms: cheaper than the
    /// two-step composition, mathematically the same chain of chord
    /// relations.
    #[verifier::rlimit(100)]
    #[verifier::spinoff_prover]
    pub fn double_and_add(&self, cs: &mut Circuit, value: &Self) -> (r: Result<
        Self,
        SynthError,
    >)
        requires
            self.operand(),
            value.operand(),
        ensures
            cong(value.x_int(), self.x_int()) ==> (r matches Err(e) && e
                == SynthError::DivisionByZero),
            invertible(value.x_int() - self.x_int()) && invertible(
                g1_chord_x(self.x_int(), self.y_int(), value.x_int(), value.y_int())
                    - self.x_int(),
            ) ==> r is Ok,
            r matches Ok(p) ==> p.wf() && g1_dna_rel(
                self.x_int(),
                self.y_int(),
                value.x_int(),
                value.y_int(),
                p.x_int(),
                p.y_int(),
            ),
            final(cs).satisfied == old(cs).satisfied,
    {
        let yqyp = value.y.sub(cs, &self.y);
        let xqxp = value.x.sub(cs, &self.x);
        proof {
            lemma_cong_iff_diff(value.x_int(), self.x_int(), xqxp.as_int());
            lemma_invertible_cong(xqxp.as_int(), value.x_int() - self.x_int());
        }
        let l1 = match yqyp.div_unchecked(cs, &xqxp) {
            Ok(l) => l,
            Err(e) => {
                return Err(e);
            },
        };
        let l1l1 = l1.square(cs);
        let xqxp2 = self.x.add(cs, &value.x);
        let x2 = l1l1.sub(cs, &xqxp2);
        let ypyp = self.y.add(cs, &self.y);
        let x2xp = x2.sub(cs, &self.x);
        proof {
            if invertible(value.x_int() - self.x_int()) {
                lemma_cong_mul(
                    l1.as_int(),
                    l1.as_int(),
                    xqxp.as_int(),
                    value.x_int() - self.x_int(),
                );
                lemma_dna_mid(
                    l1.as_int(),
                    x2.as_int(),
                    x2xp.as_int(),
                    self.x_int(),
                    self.y_int(),
                    value.x_int(),
                    value.y_int(),
                );
                lemma_invertible_cong(
                    x2xp.as_int(),
                    g1_chord_x(self.x_int(), self.y_int(), value.x_int(), value.y_int())
                        - self.x_int(),
                );
            }
        }
        let l2a = match ypyp.div_unchecked(cs, &x2xp) {
            Ok(l) => l,
            Err(e) => {
                return Err(e);
            },
        };
        let l2b = l1.add(cs, &l2a);
        let l2 = l2b.neg(cs);
        let l2l2 = l2.square(cs);
        let x3a = l2l2.sub(cs, &self.x);
        let x3 = x3a.sub(cs, &x2);
        let y3a = self.x.sub(cs, &x3);
        let y3b = l2.mul(cs, &y3a);
        let y3 = y3b.sub(cs, &self.y);
        proof {
            lemma_dna_assemble(
                self.x_int(),
                self.y_int(),
                value.x_int(),
                value.y_int(),
                yqyp.as_int(),
                xqxp.as_int(),
                l1.as_int(),
                xqxp2.as_int(),
                x2.as_int(),
                ypyp.as_int(),
                x2xp.as_int(),
                l2a.as_int(),
                l2b.as_int(),
                l2.as_int(),
                x3a.as_int(),
                x3.as_int(),
                y3a.as_int(),
                y3b.as_int(),
                y3.as_int(),
            );
            assert(g1_dna_rel_with(
                l1.as_int(),
                l2.as_int(),
                x2.as_int(),
                self.x_int(),
                self.y_int(),
                value.x_int(),
                value.y_int(),
                x3.as_int(),
                y3.as_int(),
            ));
        }
                Ok(AllocatedG1Point { x: x3, y: y3 })
    }
}



/// Under an invertible doubled ordinate, the tripling's intermediate
/// denominator is congruent to the tangent image's.
proof fn lemma_triple_mid(lam1: int, x2v: int, x1x2v: int, px: int, py: int)
    requires
        invertible(2 * py),
        cong(lam1 * (2 * py), 3 * (px * px)),
        cong(x2v, lam1 * lam1 - 2 * px),
        cong(x1x2v, px - x2v),
    ensures
        cong(x1x2v, px - g1_tangent_x(px, py)),
{
    let sl = g1_tangent_slope(px, py);
    lemma_quotient_unique(lam1, 3 * (px * px), 2 * py);
    lemma_cong_mul(lam1, sl, lam1, sl);
    lemma_cong_sub(lam1 * lam1, sl * sl, 2 * px, 2 * px);
    lemma_cong_sub(px, px, x2v, g1_tangent_x(px, py));
}

/// Under an invertible abscissa difference, the fused operation's second
/// denominator is congruent to the chord image's.
proof fn lemma_dna_mid(
    lam1: int,
    x2v: int,
    x2xpv: int,
    px: int,
    py: int,
    qx: int,
    qy: int,
)
    requires
        invertible(qx - px),
        cong(lam1 * (qx - px), qy - py),
        cong(x2v, lam1 * lam1 - px - qx),
        cong(x2xpv, x2v - px),
    ensures
        cong(x2xpv, g1_chord_x(px, py, qx, qy) - px),
{
    let sl = g1_chord_slope(px, py, qx, qy);
    lemma_quotient_unique(lam1, qy - py, qx - px);
    lemma_cong_mul(lam1, sl, lam1, sl);
    lemma_cong_sub(lam1 * lam1, sl * sl, px + qx, px + qx);
    lemma_cong_sub(x2v, g1_chord_x(px, py, qx, qy), px, px);
}

/// Assembly of the shared-slope tripling relations from the step facts.
#[verifier::rlimit(100)]
#[verifier::spinoff_prover]
proof fn lemma_triple_assemble(
    px: int,
    py: int,
    xx3av: int,
    y2v: int,
    lam1: int,
    x2av: int,
    x2v: int,
    x1x2v: int,
    l2av: int,
    lam2: int,
    qxrxv: int,
    xrv: int,
    pxrxv: int,
    l2pxrxv: int,
    yrv: int,
)
    requires
        xx3av == 3 * (px * px),
        y2v == 2 * py,
        cong(lam1 * y2v, xx3av),
        x2av == 2 * px,
        cong(x2v, lam1 * lam1 - x2av),
        cong(x1x2v, px - x2v),
        cong(l2av * x1x2v, y2v),
        cong(lam2, l2av - lam1),
        qxrxv == x2v + px,
        cong(xrv, lam2 * lam2 - qxrxv),
        cong(pxrxv, px - xrv),
        l2pxrxv == lam2 * pxrxv,
        cong(yrv, l2pxrxv - py),
    ensures
        cong(lam1 * (2 * py), 3 * (px * px)),
        cong(x2v, lam1 * lam1 - 2 * px),
        cong((lam2 + lam1) * (px - x2v), 2 * py),
        cong(xrv, lam2 * lam2 - px - x2v),
        cong(yrv, lam2 * (px - xrv) - py),
{
    lemma_cong_add(lam2, l2av - lam1, lam1, lam1);
    lemma_cong_mul(lam2 + lam1, l2av, px - x2v, x1x2v);
    lemma_cong_mul(lam2, lam2, pxrxv, px - xrv);
    lemma_cong_sub(l2pxrxv, lam2 * (px - xrv), py, py);
}

/// Assembly of the fused double-and-add relations from the step facts.
#[verifier::rlimit(100)]
#[verifier::spinoff_prover]
proof fn lemma_dna_assemble(
    px: int,
    py: int,
    qx: int,
    qy: int,
    yqypv: int,
    xqxpv: int,
    lam1: int,
    xqxp2v: int,
    x2v: int,
    ypypv: int,
    x2xpv: int,
    tv: int,
    l2bv: int,
    lam2: int,
    x3av: int,
    x3v: int,
    y3av: int,
    y3bv: int,
    y3v: int,
)
    requires
        cong(yqypv, qy - py),
        cong(xqxpv, qx - px),
        cong(lam1 * xqxpv, yqypv),
        xqxp2v == px + qx,
        cong(x2v, lam1 * lam1 - xqxp2v),
        ypypv == py + py,
        cong(x2xpv, x2v - px),
        cong(tv * x2xpv, ypypv),
        l2bv == lam1 + tv,
        cong(lam2, -l2bv),
        cong(x3av, lam2 * lam2 - px),
        cong(x3v, x3av - x2v),
        cong(y3av, px - x3v),
        y3bv == lam2 * y3av,
        cong(y3v, y3bv - py),
    ensures
        cong(lam1 * (qx - px), qy - py),
        cong(x2v, lam1 * lam1 - px - qx),
        cong((0 - (lam1 + lam2)) * (x2v - px), 2 * py),
        cong(x3v, lam2 * lam2 - px - x2v),
        cong(y3v, lam2 * (px - x3v) - py),
{
    lemma_cong_mul(lam1, lam1, xqxpv, qx - px);
    lemma_cong_add(lam1, lam1, lam2, -(lam1 + tv));
    lemma_cong_sub(0, 0, lam1 + lam2, -tv);
    lemma_cong_mul(0 - (lam1 + lam2), tv, x2v - px, x2xpv);
    lemma_cong_sub(x3av, lam2 * lam2 - px, x2v, x2v);
    lemma_cong_mul(lam2, lam2, y3av, px - x3v);
    lemma_cong_sub(y3bv, lam2 * (px - x3v), py, py);
}

/// An element's residue difference is zero exactly when the values are
/// congruent.
proof fn lemma_cong_iff_diff(a: int, b: int, d: int)
    requires
        cong(d, a - b),
    ensures
        (fpm(d) == 0) <==> cong(a, b),
{
    let m = fp_modulus() as int;
    if cong(a, b) {
        lemma_cong_sub(a, b, b, b);
        assert(fpm(a - b) == fpm(b - b));
        lemma_fpm_small(0);
    }
    if fpm(d) == 0 {
        assert(fpm(a - b) == 0);
        vstd::arithmetic::div_mod::lemma_fundamental_div_mod(a - b, m);
        let q = (a - b) / m;
        crate::arith::lemma_cong_add_multiple(b, q);
        assert(b + q * m == a);
    }
}

/// Congruent coordinates satisfy the same tangent relation.
proof fn lemma_double_rel_cong(px: int, py: int, ax: int, ay: int, bx: int, by: int)
    requires
        g1_double_rel(px, py, ax, ay),
        cong(bx, ax),
        cong(by, ay),
    ensures
        g1_double_rel(px, py, bx, by),
{
    let lam = choose|lam: int| g1_double_rel_with(lam, px, py, ax, ay);
    assert(cong(bx, lam * lam - 2 * px));
    assert(cong(by, lam * (px - ax) - py));
    lemma_cong_mul(lam, lam, px - bx, px - ax);
    lemma_cong_sub(lam * (px - bx), lam * (px - ax), py, py);
    assert(g1_double_rel_with(lam, px, py, bx, by));
}

} // verus!
