//! Algebraic laws of the curve group operations: every point the chord and
//! tangent constructions return satisfies the curve equation, and point
//! addition is commutative.
//!
//! The proofs work with congruences modulo the field prime: the chord and
//! tangent cases each reduce to an exact polynomial identity (the line
//! through the operands meets the curve in a cubic whose third root is the
//! result) together with Fermat's little theorem for the slope's divisions.

use vstd::prelude::*;
use vstd::arithmetic::div_mod::{
    lemma_small_mod, lemma_mod_twice, lemma_mod_bound, lemma_add_mod_noop, lemma_sub_mod_noop,
    lemma_mul_mod_noop_general, lemma_mul_mod_noop_right, lemma_mod_add_multiples_vanish,
    lemma_mod_equivalence,
};
use vstd::arithmetic::power::{pow, lemma_pow1, lemma_pow_adds};
use crate::primes::{is_prime, lemma_euclid, lemma_fermat};
use crate::field::{f_add, f_mul, f_sub, f_inv, f_div};
use crate::curve::{PointVal, CurveVal, pt_wf, on_curve, chord_val, add_val, dbl_val, addd_val};

verus! {

/// Congruence modulo `p`.
pub(crate) open spec fn cong(a: int, b: int, p: nat) -> bool {
    a % (p as int) == b % (p as int)
}

pub(crate) proof fn lemma_cong_add(p: nat, a: int, b: int, c: int, d: int)
    requires
        p >= 1,
        cong(a, c, p),
        cong(b, d, p),
    ensures
        cong(a + b, c + d, p),
{
    lemma_add_mod_noop(a, b, p as int);
    lemma_add_mod_noop(c, d, p as int);
}

pub(crate) proof fn lemma_cong_sub(p: nat, a: int, b: int, c: int, d: int)
    requires
        p >= 1,
        cong(a, c, p),
        cong(b, d, p),
    ensures
        cong(a - b, c - d, p),
{
    lemma_sub_mod_noop(a, b, p as int);
    lemma_sub_mod_noop(c, d, p as int);
}

pub(crate) proof fn lemma_cong_mul(p: nat, a: int, b: int, c: int, d: int)
    requires
        p >= 1,
        cong(a, c, p),
        cong(b, d, p),
    ensures
        cong(a * b, c * d, p),
{
    lemma_mul_mod_noop_general(a, b, p as int);
    lemma_mul_mod_noop_general(c, d, p as int);
}

/// `f_add` computes a representative of the sum.
pub(crate) proof fn lemma_f_add_cong(c: nat, d: nat, p: nat)
    requires
        p >= 1,
    ensures
        cong(f_add(c, d, p) as int, c + d as int, p),
        f_add(c, d, p) < p,
{
    lemma_mod_twice((c + d) as int, p as int);
    lemma_mod_bound((c + d) as int, p as int);
}

/// `f_mul` computes a representative of the product.
pub(crate) proof fn lemma_f_mul_cong(c: nat, d: nat, p: nat)
    requires
        p >= 1,
    ensures
        cong(f_mul(c, d, p) as int, c as int * d, p),
        f_mul(c, d, p) < p,
{
    lemma_mod_twice((c * d) as int, p as int);
    lemma_mod_bound((c * d) as int, p as int);
}

/// `f_sub` computes a representative of the difference.
pub(crate) proof fn lemma_f_sub_cong(c: nat, d: nat, p: nat)
    requires
        p >= 1,
        d < p,
    ensures
        cong(f_sub(c, d, p) as int, c - d, p),
        f_sub(c, d, p) < p,
{
    if d == 0 {
        lemma_mod_twice(c as int, p as int);
        lemma_mod_bound(c as int, p as int);
    } else {
        assert(f_sub(c, d, p) == ((c + p - d) as int) % (p as int));
        lemma_mod_add_multiples_vanish(c - d, p as int);
        lemma_mod_twice((c + p - d) as int, p as int);
        lemma_mod_bound((c + p - d) as int, p as int);
    }
}

/// Multiplying a Fermat quotient back by its divisor recovers the
/// dividend: `f_div(e, d, p) * d = e (mod p)` for prime `p` and
/// `0 < d < p`.
pub(crate) proof fn lemma_f_div_mul(e: nat, d: nat, p: nat)
    requires
        is_prime(p),
        0 < d < p,
    ensures
        cong(f_div(e, d, p) as int * d, e as int, p),
{
    let pi = p as int;
    let iv = pow(d as int, (p - 2) as nat);
    lemma_mod_bound(iv, pi);
    lemma_mul_mod_noop_right(e as int, iv, pi);
    lemma_mod_twice(e as int * iv, pi);
    assert(cong(f_div(e, d, p) as int, e as int * iv, p));
    lemma_cong_mul(p, f_div(e, d, p) as int, d as int, e as int * iv, d as int);
    lemma_pow_adds(d as int, (p - 2) as nat, 1);
    lemma_pow1(d as int);
    assert((e as int * iv) * d == e as int * (iv * d)) by (nonlinear_arith);
    lemma_small_mod(d, p);
    lemma_fermat(p, d);
    lemma_small_mod(1, p);
    assert(cong(pow(d as int, (p - 1) as nat), 1, p));
    lemma_cong_mul(p, e as int, pow(d as int, (p - 1) as nat), e as int, 1);
    assert(e as int * 1 == e) by (nonlinear_arith);
}

/// A Fermat inverse really is a right inverse: `f_inv(d, p) * d = 1
/// (mod p)` for prime `p` and `0 < d < p`.
pub(crate) proof fn lemma_f_inv_mul(d: nat, p: nat)
    requires
        is_prime(p),
        0 < d < p,
    ensures
        cong(f_inv(d, p) as int * d, 1, p),
{
    let pi = p as int;
    let iv = pow(d as int, (p - 2) as nat);
    lemma_mod_twice(iv, pi);
    lemma_mul_mod_noop_general(iv, d as int, pi);
    lemma_pow_adds(d as int, (p - 2) as nat, 1);
    lemma_pow1(d as int);
    lemma_small_mod(d, p);
    lemma_fermat(p, d);
    lemma_small_mod(1, p);
}

/// The exact algebra behind both the chord and the tangent case: the
/// cubic `x^3 + aa*x + bb - (s*x + w)^2` factors through the three
/// abscissas `x1`, `x2` and `x3e = s^2 - x1 - x2`, leaving the linear
/// remainder `aco*x + bco`.
proof fn lemma_line_cubic_identity(
    aa: int,
    bb: int,
    x1: int,
    x2: int,
    s: int,
    w: int,
    x3e: int,
    aco: int,
    bco: int,
    x: int,
)
    requires
        x3e == s * s - x1 - x2,
        aco == aa - 2 * s * w - (x1 * x2 + x1 * x3e + x2 * x3e),
        bco == bb - w * w + x1 * x2 * x3e,
    ensures
        x * x * x + aa * x + bb - (s * x + w) * (s * x + w) == aco * x + bco + (x - x1) * ((x - x2)
            * (x - x3e)),
{
    let e1 = x1 * x2 + x1 * x3e + x2 * x3e;
    let e0 = x1 * (x2 * x3e);
    let sq = (s * x + w) * (s * x + w);
    assert(sq == (s * s) * (x * x) + 2 * (s * w) * x + w * w) by (nonlinear_arith)
        requires
            sq == (s * x + w) * (s * x + w),
    ;
    let q = (x - x2) * (x - x3e);
    assert(q == x * x - (x2 + x3e) * x + x2 * x3e) by (nonlinear_arith)
        requires
            q == (x - x2) * (x - x3e),
    ;
    let cube = (x - x1) * q;
    assert(cube == x * q - x1 * q) by (nonlinear_arith)
        requires
            cube == (x - x1) * q,
    ;
    assert(x * q == x * x * x - (x2 + x3e) * (x * x) + (x2 * x3e) * x) by (nonlinear_arith)
        requires
            q == x * x - (x2 + x3e) * x + x2 * x3e,
    ;
    assert(x1 * q == x1 * (x * x) - (x1 * (x2 + x3e)) * x + e0) by (nonlinear_arith)
        requires
            q == x * x - (x2 + x3e) * x + x2 * x3e,
            e0 == x1 * (x2 * x3e),
    ;
    assert(cube == x * x * x - (x2 + x3e) * (x * x) + (x2 * x3e) * x - x1 * (x * x) + (x1 * (x2
        + x3e)) * x - e0);
    assert(x * x * x - (x2 + x3e) * (x * x) + (x2 * x3e) * x - x1 * (x * x) + (x1 * (x2 + x3e))
        * x - e0 == x * x * x - (x1 + x2 + x3e) * (x * x) + e1 * x - e0) by (nonlinear_arith)
        requires
            e1 == x1 * x2 + x1 * x3e + x2 * x3e,
    ;
    assert(bco == bb - w * w + e0) by (nonlinear_arith)
        requires
            bco == bb - w * w + x1 * x2 * x3e,
            e0 == x1 * (x2 * x3e),
    ;
    assert(x * x * x + aa * x + bb - sq == aco * x + bco + cube) by (nonlinear_arith)
        requires
            sq == (s * s) * (x * x) + 2 * (s * w) * x + w * w,
            cube == x * x * x - (x1 + x2 + x3e) * (x * x) + e1 * x - e0,
            x1 + x2 + x3e == s * s,
            aco == aa - 2 * s * w - e1,
            bco == bb - w * w + e0,
    ;
}

/// The chord construction stays on the curve: if two points with distinct
/// abscissas (mod `p`) satisfy the curve equation and the slope `s`
/// satisfies the chord relation, then so does the constructed point.
proof fn lemma_chord_on_curve(
    p: nat,
    aa: int,
    bb: int,
    x1: int,
    y1: int,
    x2: int,
    y2: int,
    s: int,
    x3: int,
    y3: int,
)
    requires
        is_prime(p),
        cong(y1 * y1, x1 * x1 * x1 + aa * x1 + bb, p),
        cong(y2 * y2, x2 * x2 * x2 + aa * x2 + bb, p),
        (x2 - x1) % (p as int) != 0,
        cong(s * (x2 - x1), y2 - y1, p),
        cong(x3, s * s - x1 - x2, p),
        cong(y3, s * (x1 - x3) - y1, p),
    ensures
        cong(y3 * y3, x3 * x3 * x3 + aa * x3 + bb, p),
{
    let pi = p as int;
    let x3e = s * s - x1 - x2;
    let w = y1 - s * x1;
    let aco = aa - 2 * s * w - (x1 * x2 + x1 * x3e + x2 * x3e);
    let bco = bb - w * w + x1 * x2 * x3e;

    // the vertical-free line through the two points: L(x) = s*x + w;
    // x^3 + aa*x + bb - L(x)^2 == aco*x + bco at each of the three
    // abscissas x1, x2, x3e, where the cubic's remaining factor vanishes
    lemma_line_cubic_identity(aa, bb, x1, x2, s, w, x3e, aco, bco, x1);
    assert((x1 - x1) * ((x1 - x2) * (x1 - x3e)) == 0) by (nonlinear_arith);
    assert(x1 * x1 * x1 + aa * x1 + bb - (s * x1 + w) * (s * x1 + w) == aco * x1 + bco);
    lemma_line_cubic_identity(aa, bb, x1, x2, s, w, x3e, aco, bco, x2);
    assert((x2 - x1) * ((x2 - x2) * (x2 - x3e)) == 0) by (nonlinear_arith);
    assert(x2 * x2 * x2 + aa * x2 + bb - (s * x2 + w) * (s * x2 + w) == aco * x2 + bco);
    lemma_line_cubic_identity(aa, bb, x1, x2, s, w, x3e, aco, bco, x3e);
    assert((x3e - x1) * ((x3e - x2) * (x3e - x3e)) == 0) by (nonlinear_arith);
    assert(x3e * x3e * x3e + aa * x3e + bb - (s * x3e + w) * (s * x3e + w) == aco * x3e + bco);

    // the line passes through the first point exactly: L(x1) == y1
    assert(s * x1 + w == y1);
    // so aco*x1 + bco = (x1^3 + aa*x1 + bb) - y1^2 = 0 (mod p)
    lemma_cong_sub(
        p,
        x1 * x1 * x1 + aa * x1 + bb,
        y1 * y1,
        x1 * x1 * x1 + aa * x1 + bb,
        x1 * x1 * x1 + aa * x1 + bb,
    );
    assert(cong(aco * x1 + bco, 0, p));

    // the line passes through the second point mod p: L(x2) = y2 (mod p)
    assert(s * x2 + w == s * (x2 - x1) + y1) by (nonlinear_arith)
        requires
            w == y1 - s * x1,
    ;
    lemma_cong_add(p, s * (x2 - x1), y1, y2 - y1, y1);
    assert(cong(s * x2 + w, y2, p));
    lemma_cong_mul(p, s * x2 + w, s * x2 + w, y2, y2);
    // so aco*x2 + bco = (x2^3 + aa*x2 + bb) - L(x2)^2 = 0 (mod p)
    lemma_cong_sub(
        p,
        x2 * x2 * x2 + aa * x2 + bb,
        (s * x2 + w) * (s * x2 + w),
        x2 * x2 * x2 + aa * x2 + bb,
        x2 * x2 * x2 + aa * x2 + bb,
    );
    assert(cong(aco * x2 + bco, 0, p));

    // subtracting the two evaluations: aco * (x1 - x2) = 0 (mod p), and
    // x1 - x2 is invertible, so aco = 0 (mod p), hence bco = 0 (mod p)
    lemma_cong_sub(p, aco * x1 + bco, aco * x2 + bco, 0, 0);
    assert((aco * x1 + bco) - (aco * x2 + bco) == aco * (x1 - x2)) by (nonlinear_arith);
    let dd = ((x2 - x1) % pi) as nat;
    lemma_mod_bound(x2 - x1, pi);
    lemma_mod_twice(x2 - x1, pi);
    lemma_small_mod(dd, p);
    assert(cong(dd as int, x2 - x1, p));
    lemma_cong_mul(p, dd as int, aco, x2 - x1, aco);
    assert((x2 - x1) * aco == 0 - aco * (x1 - x2)) by (nonlinear_arith);
    lemma_cong_sub(p, 0, aco * (x1 - x2), 0, 0);
    lemma_small_mod(0, p);
    assert((dd * aco) % pi == 0);
    lemma_euclid(p, dd, aco);
    assert(cong(aco, 0, p));
    lemma_cong_mul(p, aco, x1, 0, x1);
    assert(0int * x1 == 0) by (nonlinear_arith);
    lemma_cong_sub(p, aco * x1 + bco, aco * x1, 0, 0);
    assert(cong(bco, 0, p));

    // the third evaluation now yields the curve equation at x3e
    lemma_cong_mul(p, aco, x3e, 0, x3e);
    assert(0int * x3e == 0) by (nonlinear_arith);
    lemma_cong_add(p, aco * x3e, bco, 0, 0);
    assert(cong(aco * x3e + bco, 0, p));
    lemma_cong_sub(
        p,
        x3e * x3e * x3e + aa * x3e + bb,
        aco * x3e + bco,
        x3e * x3e * x3e + aa * x3e + bb,
        0,
    );
    assert(cong((s * x3e + w) * (s * x3e + w), x3e * x3e * x3e + aa * x3e + bb, p));

    // transport along x3 = x3e (mod p) and y3 = -L(x3) (mod p)
    lemma_cong_mul(p, s, x3, s, x3e);
    lemma_cong_add(p, s * x3, w, s * x3e, w);
    assert(cong(s * x3 + w, s * x3e + w, p));
    assert(s * (x1 - x3) - y1 == 0 - (s * x3 + w)) by (nonlinear_arith)
        requires
            w == y1 - s * x1,
    ;
    lemma_cong_sub(p, 0, s * x3 + w, 0, s * x3e + w);
    assert(cong(y3, 0 - (s * x3e + w), p));
    lemma_cong_mul(p, y3, y3, 0 - (s * x3e + w), 0 - (s * x3e + w));
    assert((0 - (s * x3e + w)) * (0 - (s * x3e + w)) == (s * x3e + w) * (s * x3e + w))
        by (nonlinear_arith);

    // and the right-hand side along x3 = x3e (mod p)
    lemma_cong_mul(p, x3, x3, x3e, x3e);
    lemma_cong_mul(p, x3 * x3, x3, x3e * x3e, x3e);
    lemma_cong_mul(p, aa, x3, aa, x3e);
    lemma_cong_add(p, x3 * x3 * x3, aa * x3, x3e * x3e * x3e, aa * x3e);
    lemma_cong_add(p, x3 * x3 * x3 + aa * x3, bb, x3e * x3e * x3e + aa * x3e, bb);
}

/// The tangent construction stays on the curve: if a point with `y != 0`
/// (mod `p`) satisfies the curve equation and the slope `s` satisfies the
/// tangent relation, then so does the constructed point.
proof fn lemma_tangent_on_curve(
    p: nat,
    aa: int,
    bb: int,
    x1: int,
    y1: int,
    s: int,
    x3: int,
    y3: int,
)
    requires
        is_prime(p),
        cong(y1 * y1, x1 * x1 * x1 + aa * x1 + bb, p),
        cong(s * (2 * y1), 3 * (x1 * x1) + aa, p),
        cong(x3, s * s - 2 * x1, p),
        cong(y3, s * (x1 - x3) - y1, p),
    ensures
        cong(y3 * y3, x3 * x3 * x3 + aa * x3 + bb, p),
{
    let x3e = s * s - 2 * x1;
    let w = y1 - s * x1;
    let aco = aa - 2 * s * w - (x1 * x1 + 2 * (x1 * x3e));
    let bco = bb - w * w + x1 * x1 * x3e;

    // exact identities: the cubic's remaining factor is (x - x1)^2 (x - x3e)
    lemma_line_cubic_identity(aa, bb, x1, x1, s, w, x3e, aco, bco, x1);
    assert((x1 - x1) * ((x1 - x1) * (x1 - x3e)) == 0) by (nonlinear_arith);
    assert(x1 * x1 * x1 + aa * x1 + bb - (s * x1 + w) * (s * x1 + w) == aco * x1 + bco);
    lemma_line_cubic_identity(aa, bb, x1, x1, s, w, x3e, aco, bco, x3e);
    assert((x3e - x1) * ((x3e - x1) * (x3e - x3e)) == 0) by (nonlinear_arith);
    assert(x3e * x3e * x3e + aa * x3e + bb - (s * x3e + w) * (s * x3e + w) == aco * x3e + bco);
    // the tangency makes the linear coefficient vanish directly:
    // aco == (3*x1^2 + aa) - s*(2*y1) exactly
    assert(aco == (3 * (x1 * x1) + aa) - s * (2 * y1)) by (nonlinear_arith)
        requires
            x3e == s * s - 2 * x1,
            w == y1 - s * x1,
            aco == aa - 2 * s * w - (x1 * x1 + 2 * (x1 * x3e)),
    ;
    lemma_cong_sub(p, 3 * (x1 * x1) + aa, s * (2 * y1), 3 * (x1 * x1) + aa, 3 * (x1 * x1) + aa);
    assert(cong(aco, 0, p));

    // the curve equation at x1 then kills the constant coefficient
    assert(s * x1 + w == y1);
    lemma_cong_sub(
        p,
        x1 * x1 * x1 + aa * x1 + bb,
        y1 * y1,
        x1 * x1 * x1 + aa * x1 + bb,
        x1 * x1 * x1 + aa * x1 + bb,
    );
    assert(cong(aco * x1 + bco, 0, p));
    lemma_cong_mul(p, aco, x1, 0, x1);
    assert(0int * x1 == 0) by (nonlinear_arith);
    lemma_cong_sub(p, aco * x1 + bco, aco * x1, 0, 0);
    assert(cong(bco, 0, p));

    // the second evaluation yields the curve equation at x3e
    lemma_cong_mul(p, aco, x3e, 0, x3e);
    assert(0int * x3e == 0) by (nonlinear_arith);
    lemma_cong_add(p, aco * x3e, bco, 0, 0);
    lemma_cong_sub(
        p,
        x3e * x3e * x3e + aa * x3e + bb,
        aco * x3e + bco,
        x3e * x3e * x3e + aa * x3e + bb,
        0,
    );
    assert(cong((s * x3e + w) * (s * x3e + w), x3e * x3e * x3e + aa * x3e + bb, p));

    // transport along x3 = x3e (mod p) and y3 = -L(x3) (mod p)
    lemma_cong_mul(p, s, x3, s, x3e);
    lemma_cong_add(p, s * x3, w, s * x3e, w);
    assert(s * (x1 - x3) - y1 == 0 - (s * x3 + w)) by (nonlinear_arith)
        requires
            w == y1 - s * x1,
    ;
    lemma_cong_sub(p, 0, s * x3 + w, 0, s * x3e + w);
    assert(cong(y3, 0 - (s * x3e + w), p));
    lemma_cong_mul(p, y3, y3, 0 - (s * x3e + w), 0 - (s * x3e + w));
    assert((0 - (s * x3e + w)) * (0 - (s * x3e + w)) == (s * x3e + w) * (s * x3e + w))
        by (nonlinear_arith);
    lemma_cong_mul(p, x3, x3, x3e, x3e);
    lemma_cong_mul(p, x3 * x3, x3, x3e * x3e, x3e);
    lemma_cong_mul(p, aa, x3, aa, x3e);
    lemma_cong_add(p, x3 * x3 * x3, aa * x3, x3e * x3e * x3e, aa * x3e);
    lemma_cong_add(p, x3 * x3 * x3 + aa * x3, bb, x3e * x3e * x3e + aa * x3e, bb);
}

/// Point addition keeps coordinates reduced.
pub proof fn lemma_add_val_wf(cv: CurveVal, c: PointVal, d: PointVal)
    requires
        cv.p >= 1,
        pt_wf(c, cv.p),
        pt_wf(d, cv.p),
    ensures
        pt_wf(add_val(cv, c, d), cv.p),
{
    match (c, d) {
        (PointVal::Affine(x1, y1), PointVal::Affine(x2, y2)) => {
            let p = cv.p;
            if x1 == x2 && f_add(y1, y2, p) == 0 {
            } else {
                let s = f_div(f_sub(y2, y1, p), f_sub(x2, x1, p), p);
                lemma_f_sub_cong(f_sub(f_mul(s, s, p), x1, p), x2, p);
                lemma_f_sub_cong(f_mul(s, f_sub(x1, chord_val(cv, x1, y1, x2, s).0, p), p), y1, p);
            }
        },
        _ => {},
    }
}

/// Point doubling keeps coordinates reduced.
pub proof fn lemma_dbl_val_wf(cv: CurveVal, c: PointVal)
    requires
        cv.p >= 1,
        pt_wf(c, cv.p),
    ensures
        pt_wf(dbl_val(cv, c), cv.p),
{
    match c {
        PointVal::Affine(x1, y1) => {
            let p = cv.p;
            if y1 != 0 {
                let s = f_div(
                    f_add(cv.a, f_mul(3, f_mul(x1, x1, p), p), p),
                    f_mul(2, y1, p),
                    p,
                );
                lemma_f_sub_cong(f_sub(f_mul(s, s, p), x1, p), x1, p);
                lemma_f_sub_cong(f_mul(s, f_sub(x1, chord_val(cv, x1, y1, x1, s).0, p), p), y1, p);
            }
        },
        PointVal::Identity => {},
    }
}

/// Two congruent residues below the modulus are equal.
pub(crate) proof fn lemma_cong_unique(p: nat, u: nat, v: nat)
    requires
        p >= 1,
        u < p,
        v < p,
        cong(u as int, v as int, p),
    ensures
        u == v,
{
    lemma_small_mod(u, p);
    lemma_small_mod(v, p);
}

/// Two distinct curve points over the same abscissa are mirror images:
/// their ordinates add to zero modulo the prime.
proof fn lemma_same_abscissa_vertical(cv: CurveVal, x: nat, y1: nat, y2: nat)
    requires
        is_prime(cv.p),
        y1 < cv.p,
        y2 < cv.p,
        y1 != y2,
        on_curve(cv, PointVal::Affine(x, y1)),
        on_curve(cv, PointVal::Affine(x, y2)),
    ensures
        f_add(y1, y2, cv.p) == 0,
{
    let p = cv.p;
    let pi = p as int;
    let y1i = y1 as int;
    let y2i = y2 as int;
    let su = f_add(y1, y2, p);
    if su != 0 {
        // y1^2 = y2^2 (mod p), so (y1 + y2)(y1 - y2) = 0 (mod p); with
        // y1 + y2 nonzero, Euclid's lemma forces y1 = y2
        lemma_f_add_cong(y1, y2, p);
        lemma_small_mod(su, p);
        lemma_small_mod(0, p);
        lemma_sub_mod_noop(y1i * y1i, y2i * y2i, pi);
        assert((y1i * y1i - y2i * y2i) % pi == 0);
        assert((y1i + y2i) * (y1i - y2i) == y1i * y1i - y2i * y2i) by (nonlinear_arith);
        lemma_cong_mul(p, su as int, y1i - y2i, y1i + y2i, y1i - y2i);
        assert((su as int * (y1i - y2i)) % pi == 0);
        lemma_euclid(p, su, y1i - y2i);
        lemma_mod_equivalence(y1i, y2i, pi);
        lemma_small_mod(y1, p);
        lemma_small_mod(y2, p);
    }
}

/// The sum of two distinct curve points is on the curve.
pub proof fn lemma_add_val_on_curve(cv: CurveVal, c: PointVal, d: PointVal)
    requires
        is_prime(cv.p),
        pt_wf(c, cv.p),
        pt_wf(d, cv.p),
        on_curve(cv, c),
        on_curve(cv, d),
        c != d,
    ensures
        on_curve(cv, add_val(cv, c, d)),
{
    match (c, d) {
        (PointVal::Affine(x1, y1), PointVal::Affine(x2, y2)) => {
            let p = cv.p;
            let pi = p as int;
            let aa = cv.a as int;
            let bb = cv.b as int;
            let x1i = x1 as int;
            let y1i = y1 as int;
            let x2i = x2 as int;
            let y2i = y2 as int;
            if x1 == x2 && f_add(y1, y2, p) == 0 {
                // the result is the identity, which is on every curve
            } else {
                if x1 == x2 {
                    lemma_same_abscissa_vertical(cv, x1, y1, y2);
                    assert(false);
                }
                // the chord case proper
                let e = f_sub(y2, y1, p);
                let dd = f_sub(x2, x1, p);
                let s = f_div(e, dd, p);
                let si = s as int;
                let xy = chord_val(cv, x1, y1, x2, s);
                lemma_f_sub_cong(y2, y1, p);
                lemma_f_sub_cong(x2, x1, p);
                if dd == 0 {
                    lemma_small_mod(0, p);
                    lemma_mod_equivalence(x2i, x1i, pi);
                    lemma_small_mod(x1, p);
                    lemma_small_mod(x2, p);
                }
                lemma_small_mod(dd, p);
                assert((x2i - x1i) % pi != 0);
                lemma_f_div_mul(e, dd, p);
                // slope relation: s * (x2 - x1) = y2 - y1 (mod p)
                lemma_cong_mul(p, si, x2i - x1i, si, dd as int);
                assert(cong(si * (x2i - x1i), y2i - y1i, p));
                // coordinates of the constructed point
                lemma_f_mul_cong(s, s, p);
                lemma_f_sub_cong(f_mul(s, s, p), x1, p);
                lemma_cong_sub(p, f_mul(s, s, p) as int, x1i, si * si, x1i);
                lemma_f_sub_cong(f_sub(f_mul(s, s, p), x1, p), x2, p);
                lemma_cong_sub(p, f_sub(f_mul(s, s, p), x1, p) as int, x2i, si * si - x1i, x2i);
                assert(cong(xy.0 as int, si * si - x1i - x2i, p));
                lemma_f_sub_cong(x1, xy.0, p);
                lemma_f_mul_cong(s, f_sub(x1, xy.0, p), p);
                lemma_cong_mul(p, si, f_sub(x1, xy.0, p) as int, si, x1i - xy.0);
                lemma_f_sub_cong(f_mul(s, f_sub(x1, xy.0, p), p), y1, p);
                lemma_cong_sub(
                    p,
                    f_mul(s, f_sub(x1, xy.0, p), p) as int,
                    y1i,
                    si * (x1i - xy.0),
                    y1i,
                );
                assert(cong(xy.1 as int, si * (x1i - xy.0 as int) - y1i, p));
                lemma_chord_on_curve(p, aa, bb, x1i, y1i, x2i, y2i, si, xy.0 as int, xy.1 as int);
            }
        },
        _ => {},
    }
}

/// The double of a curve point is on the curve, over an odd prime.
pub proof fn lemma_dbl_val_on_curve(cv: CurveVal, c: PointVal)
    requires
        is_prime(cv.p),
        cv.p > 2,
        pt_wf(c, cv.p),
        on_curve(cv, c),
    ensures
        on_curve(cv, dbl_val(cv, c)),
{
    match c {
        PointVal::Affine(x1, y1) => {
            let p = cv.p;
            let pi = p as int;
            let aa = cv.a as int;
            let bb = cv.b as int;
            let x1i = x1 as int;
            let y1i = y1 as int;
            if y1 == 0 {
                // the tangent is vertical; the result is the identity
            } else {
                let num = f_add(cv.a, f_mul(3, f_mul(x1, x1, p), p), p);
                let den = f_mul(2, y1, p);
                let s = f_div(num, den, p);
                let si = s as int;
                let xy = chord_val(cv, x1, y1, x1, s);
                // the denominator 2*y1 is invertible over an odd prime
                lemma_f_mul_cong(2, y1, p);
                if den == 0 {
                    lemma_small_mod(0, p);
                    lemma_small_mod(2, p);
                    lemma_euclid(p, 2, y1i);
                    lemma_small_mod(y1, p);
                }
                lemma_f_div_mul(num, den, p);
                // the numerator is 3*x1^2 + a (mod p)
                lemma_f_mul_cong(x1, x1, p);
                lemma_f_mul_cong(3, f_mul(x1, x1, p), p);
                lemma_cong_mul(p, 3, f_mul(x1, x1, p) as int, 3, x1i * x1i);
                lemma_f_add_cong(cv.a, f_mul(3, f_mul(x1, x1, p), p), p);
                lemma_cong_add(
                    p,
                    cv.a as int,
                    f_mul(3, f_mul(x1, x1, p), p) as int,
                    aa,
                    3 * (x1i * x1i),
                );
                assert(cong(num as int, 3 * (x1i * x1i) + aa, p));
                // the tangent relation: s * (2*y1) = 3*x1^2 + a (mod p)
                lemma_cong_mul(p, si, 2 * y1i, si, den as int);
                assert(cong(si * (2 * y1i), 3 * (x1i * x1i) + aa, p));
                // coordinates of the constructed point
                lemma_f_mul_cong(s, s, p);
                lemma_f_sub_cong(f_mul(s, s, p), x1, p);
                lemma_cong_sub(p, f_mul(s, s, p) as int, x1i, si * si, x1i);
                lemma_f_sub_cong(f_sub(f_mul(s, s, p), x1, p), x1, p);
                lemma_cong_sub(p, f_sub(f_mul(s, s, p), x1, p) as int, x1i, si * si - x1i, x1i);
                assert(cong(xy.0 as int, si * si - 2 * x1i, p));
                lemma_f_sub_cong(x1, xy.0, p);
                lemma_f_mul_cong(s, f_sub(x1, xy.0, p), p);
                lemma_cong_mul(p, si, f_sub(x1, xy.0, p) as int, si, x1i - xy.0);
                lemma_f_sub_cong(f_mul(s, f_sub(x1, xy.0, p), p), y1, p);
                lemma_cong_sub(
                    p,
                    f_mul(s, f_sub(x1, xy.0, p), p) as int,
                    y1i,
                    si * (x1i - xy.0),
                    y1i,
                );
                assert(cong(xy.1 as int, si * (x1i - xy.0 as int) - y1i, p));
                lemma_tangent_on_curve(p, aa, bb, x1i, y1i, si, xy.0 as int, xy.1 as int);
            }
        },
        PointVal::Identity => {},
    }
}

/// Point addition is commutative: `add_val(cv, c, d) == add_val(cv, d, c)`
/// whenever both sides are defined, that is, for distinct points on the
/// curve.
pub proof fn lemma_add_val_commutes(cv: CurveVal, c: PointVal, d: PointVal)
    requires
        is_prime(cv.p),
        pt_wf(c, cv.p),
        pt_wf(d, cv.p),
        on_curve(cv, c),
        on_curve(cv, d),
        c != d,
    ensures
        add_val(cv, c, d) == add_val(cv, d, c),
{
    match (c, d) {
        (PointVal::Affine(x1, y1), PointVal::Affine(x2, y2)) => {
            let p = cv.p;
            let pi = p as int;
            let x1i = x1 as int;
            let y1i = y1 as int;
            let x2i = x2 as int;
            let y2i = y2 as int;
            if x1 == x2 && f_add(y1, y2, p) == 0 {
                // the vertical test is symmetric in the two ordinates
                assert(f_add(y2, y1, p) == f_add(y1, y2, p));
            } else {
                if x1 == x2 {
                    lemma_same_abscissa_vertical(cv, x1, y1, y2);
                    assert(false);
                }
                let e = f_sub(y2, y1, p);
                let dd = f_sub(x2, x1, p);
                let s = f_div(e, dd, p);
                let e2 = f_sub(y1, y2, p);
                let dd2 = f_sub(x1, x2, p);
                let s2 = f_div(e2, dd2, p);
                let si = s as int;
                let s2i = s2 as int;
                lemma_f_sub_cong(y2, y1, p);
                lemma_f_sub_cong(x2, x1, p);
                lemma_f_sub_cong(y1, y2, p);
                lemma_f_sub_cong(x1, x2, p);
                if dd == 0 {
                    lemma_small_mod(0, p);
                    lemma_mod_equivalence(x2i, x1i, pi);
                    lemma_small_mod(x1, p);
                    lemma_small_mod(x2, p);
                }
                lemma_small_mod(dd, p);
                if dd2 == 0 {
                    lemma_small_mod(0, p);
                    lemma_mod_equivalence(x1i, x2i, pi);
                    lemma_small_mod(x1, p);
                    lemma_small_mod(x2, p);
                }
                lemma_f_div_mul(e, dd, p);
                lemma_f_div_mul(e2, dd2, p);
                // both slopes satisfy s * (x2 - x1) = y2 - y1 (mod p)
                lemma_cong_mul(p, si, x2i - x1i, si, dd as int);
                assert(cong(si * (x2i - x1i), y2i - y1i, p));
                lemma_cong_mul(p, s2i, x1i - x2i, s2i, dd2 as int);
                assert(cong(s2i * (x1i - x2i), y1i - y2i, p));
                lemma_cong_sub(p, 0, s2i * (x1i - x2i), 0, y1i - y2i);
                assert(0 - s2i * (x1i - x2i) == s2i * (x2i - x1i)) by (nonlinear_arith);
                assert(0 - (y1i - y2i) == y2i - y1i);
                assert(cong(s2i * (x2i - x1i), y2i - y1i, p));
                // cancel the invertible difference of abscissas: s = s2
                lemma_cong_mul(p, si, dd as int, si, x2i - x1i);
                lemma_cong_mul(p, s2i, dd as int, s2i, x2i - x1i);
                assert(si * dd == s as int * dd);
                assert((s as nat * dd) % p == (s2 as nat * dd) % p) by {
                    assert(cong(si * dd, s2i * dd, p));
                }
                vstd::arithmetic::mul::lemma_mul_is_commutative(dd as int, si);
                vstd::arithmetic::mul::lemma_mul_is_commutative(dd as int, s2i);
                crate::primes::lemma_mod_cancel(p, dd, si, s2i);
                lemma_cong_unique(p, s, s2);
                // with equal slopes the two chord results coincide
                let xy = chord_val(cv, x1, y1, x2, s);
                let xy2 = chord_val(cv, x2, y2, x1, s);
                // abscissas: both represent s^2 - x1 - x2
                lemma_f_mul_cong(s, s, p);
                lemma_cong_sub(p, f_mul(s, s, p) as int, x1i, si * si, x1i);
                lemma_f_sub_cong(f_mul(s, s, p), x1, p);
                lemma_f_sub_cong(f_sub(f_mul(s, s, p), x1, p), x2, p);
                lemma_cong_sub(p, f_sub(f_mul(s, s, p), x1, p) as int, x2i, si * si - x1i, x2i);
                lemma_cong_sub(p, f_mul(s, s, p) as int, x2i, si * si, x2i);
                lemma_f_sub_cong(f_mul(s, s, p), x2, p);
                lemma_f_sub_cong(f_sub(f_mul(s, s, p), x2, p), x1, p);
                lemma_cong_sub(p, f_sub(f_mul(s, s, p), x2, p) as int, x1i, si * si - x2i, x1i);
                assert(cong(xy.0 as int, si * si - x1i - x2i, p));
                assert(cong(xy2.0 as int, si * si - x2i - x1i, p));
                lemma_cong_unique(p, xy.0, xy2.0);
                // ordinates: both represent s*(x1 - x3) - y1 = s*(x2 - x3) - y2
                let x3 = xy.0;
                let x3i = x3 as int;
                lemma_f_sub_cong(x1, x3, p);
                lemma_f_mul_cong(s, f_sub(x1, x3, p), p);
                lemma_cong_mul(p, si, f_sub(x1, x3, p) as int, si, x1i - x3i);
                lemma_f_sub_cong(f_mul(s, f_sub(x1, x3, p), p), y1, p);
                lemma_cong_sub(
                    p,
                    f_mul(s, f_sub(x1, x3, p), p) as int,
                    y1i,
                    si * (x1i - x3i),
                    y1i,
                );
                assert(cong(xy.1 as int, si * (x1i - x3i) - y1i, p));
                lemma_f_sub_cong(x2, x3, p);
                lemma_f_mul_cong(s, f_sub(x2, x3, p), p);
                lemma_cong_mul(p, si, f_sub(x2, x3, p) as int, si, x2i - x3i);
                lemma_f_sub_cong(f_mul(s, f_sub(x2, x3, p), p), y2, p);
                lemma_cong_sub(
                    p,
                    f_mul(s, f_sub(x2, x3, p), p) as int,
                    y2i,
                    si * (x2i - x3i),
                    y2i,
                );
                assert(cong(xy2.1 as int, si * (x2i - x3i) - y2i, p));
                // their difference is the chord relation, hence zero mod p
                assert((si * (x1i - x3i) - y1i) - (si * (x2i - x3i) - y2i) == 0 - (si * (x2i
                    - x1i) - (y2i - y1i))) by (nonlinear_arith);
                lemma_cong_sub(p, si * (x2i - x1i), y2i - y1i, y2i - y1i, y2i - y1i);
                lemma_cong_sub(p, 0, si * (x2i - x1i) - (y2i - y1i), 0, 0);
                lemma_small_mod(0, p);
                lemma_mod_equivalence(si * (x1i - x3i) - y1i, si * (x2i - x3i) - y2i, pi);
                lemma_cong_unique(p, xy.1, xy2.1);
            }
        },
        _ => {},
    }
}

/// Dispatched addition of curve points lands on the curve.
pub proof fn lemma_addd_val_on_curve(cv: CurveVal, c: PointVal, d: PointVal)
    requires
        is_prime(cv.p),
        cv.p > 2,
        pt_wf(c, cv.p),
        pt_wf(d, cv.p),
        on_curve(cv, c),
        on_curve(cv, d),
    ensures
        on_curve(cv, addd_val(cv, c, d)),
{
    if c == d {
        lemma_dbl_val_on_curve(cv, c);
    } else {
        lemma_add_val_on_curve(cv, c, d);
    }
}

proof fn lemma_smul_partial_on_curve(cv: CurveVal, base: PointVal, k: nat, i: nat)
    requires
        is_prime(cv.p),
        cv.p > 2,
        pt_wf(base, cv.p),
        on_curve(cv, base),
    ensures
        on_curve(cv, crate::curve::smul_partial(cv, base, k, i)),
        pt_wf(crate::curve::smul_partial(cv, base, k, i), cv.p),
    decreases crate::bignat::bits_of(k) - i,
{
    if crate::bignat::bits_of(k) <= i + 1 {
    } else {
        let prev = crate::curve::smul_partial(cv, base, k, i + 1);
        lemma_smul_partial_on_curve(cv, base, k, i + 1);
        lemma_dbl_val_on_curve(cv, prev);
        lemma_dbl_val_wf(cv, prev);
        let t = dbl_val(cv, prev);
        if crate::bignat::bit_of(k, i) {
            lemma_addd_val_on_curve(cv, t, base);
            if t == base {
                lemma_dbl_val_wf(cv, t);
            } else {
                lemma_add_val_wf(cv, t, base);
            }
        }
    }
}

/// Every scalar multiple of a curve point is on the curve, over an odd
/// prime.
pub proof fn lemma_smul_val_on_curve(cv: CurveVal, base: PointVal, k: nat)
    requires
        is_prime(cv.p),
        cv.p > 2,
        pt_wf(base, cv.p),
        on_curve(cv, base),
    ensures
        on_curve(cv, crate::curve::smul_val(cv, base, k)),
{
    lemma_smul_partial_on_curve(cv, base, k, 0);
}

} // verus!
