//! Affine-coordinate group operations on a short Weierstrass curve
//! `y^2 = x^3 + a*x + b` over the prime field `F_p`.
//!
//! The spec functions `add_val`, `dbl_val` and `smul_val` are the
//! mathematical meaning of the executable operations; every field step of
//! the executable code goes through `FiniteField`.

use vstd::prelude::*;
use vstd::arithmetic::power::{pow, lemma_square_is_pow2};
use vstd::arithmetic::div_mod::{lemma_add_mod_noop, lemma_add_mod_noop_right, lemma_mod_self_0};
use num_bigint::BigUint;
use crate::bignat::{
    nat_of, bits_of, bit_of, big_eq, big_clone, big_from_u64, big_modpow, big_bits, big_bit,
};
use crate::field::{f_add, f_mul, f_sub, f_div, FiniteField};

verus! {

/// A curve point: affine coordinates, or the point at infinity.
#[derive(PartialEq, Debug)]
pub enum Point {
    Coor(BigUint, BigUint),
    Identity,
}

/// The mathematical value of a curve point.
pub enum PointVal {
    Affine(nat, nat),
    Identity,
}

/// The mathematical value of a curve: the coefficients and the modulus of
/// `y^2 = x^3 + a*x + b` over `F_p`.
pub struct CurveVal {
    pub a: nat,
    pub b: nat,
    pub p: nat,
}

impl View for Point {
    type V = PointVal;

    open spec fn view(&self) -> PointVal {
        match self {
            Point::Coor(x, y) => PointVal::Affine(nat_of(*x), nat_of(*y)),
            Point::Identity => PointVal::Identity,
        }
    }
}

impl Clone for Point {
    /// The copy holds the same point value.
    fn clone(&self) -> (r: Self)
        ensures
            r@ == self@,
    {
        match self {
            Point::Coor(x, y) => Point::Coor(big_clone(x), big_clone(y)),
            Point::Identity => Point::Identity,
        }
    }
}

/// Whether a point's coordinates are reduced modulo `p`.
pub open spec fn pt_wf(c: PointVal, p: nat) -> bool {
    match c {
        PointVal::Affine(x, y) => x < p && y < p,
        PointVal::Identity => true,
    }
}

/// Whether a point satisfies the curve equation `y^2 = x^3 + a*x + b` over
/// `F_p`; the point at infinity is on every curve.
pub open spec fn on_curve(cv: CurveVal, c: PointVal) -> bool {
    match c {
        PointVal::Affine(x, y) => (y * y) % cv.p == (x * x * x + cv.a * x + cv.b) % cv.p,
        PointVal::Identity => true,
    }
}

/// The third intersection of the line of slope `s` through `(x1, y1)` with
/// the curve, given that the line also meets the curve above `x2`:
/// `x3 = s^2 - x1 - x2` and `y3 = s*(x1 - x3) - y1`, all modulo `p`.
pub open spec fn chord_val(cv: CurveVal, x1: nat, y1: nat, x2: nat, s: nat) -> (nat, nat) {
    let x3 = f_sub(f_sub(f_mul(s, s, cv.p), x1, cv.p), x2, cv.p);
    let y3 = f_sub(f_mul(s, f_sub(x1, x3, cv.p), cv.p), y1, cv.p);
    (x3, y3)
}

/// Point addition for distinct operands: the identity is neutral, a
/// vertical chord meets the curve at infinity, and otherwise the chord
/// through the two points is traced via `chord_val` with slope
/// `(y2 - y1) / (x2 - x1)`.
pub open spec fn add_val(cv: CurveVal, c: PointVal, d: PointVal) -> PointVal {
    match (c, d) {
        (PointVal::Identity, _) => d,
        (_, PointVal::Identity) => c,
        (PointVal::Affine(x1, y1), PointVal::Affine(x2, y2)) => {
            if x1 == x2 && f_add(y1, y2, cv.p) == 0 {
                PointVal::Identity
            } else {
                let s = f_div(f_sub(y2, y1, cv.p), f_sub(x2, x1, cv.p), cv.p);
                let xy = chord_val(cv, x1, y1, x2, s);
                PointVal::Affine(xy.0, xy.1)
            }
        },
    }
}

/// Point doubling: the tangent of slope `(3*x1^2 + a) / (2*y1)` is traced
/// via `chord_val`; the identity, and any point with `y = 0` (its tangent
/// is vertical), double to the identity.
pub open spec fn dbl_val(cv: CurveVal, c: PointVal) -> PointVal {
    match c {
        PointVal::Affine(x1, y1) => {
            if y1 == 0 {
                PointVal::Identity
            } else {
                let s = f_div(
                    f_add(cv.a, f_mul(3, f_mul(x1, x1, cv.p), cv.p), cv.p),
                    f_mul(2, y1, cv.p),
                    cv.p,
                );
                let xy = chord_val(cv, x1, y1, x1, s);
                PointVal::Affine(xy.0, xy.1)
            }
        },
        PointVal::Identity => PointVal::Identity,
    }
}

/// Addition dispatched on equality: equal operands are doubled, distinct
/// ones added.
pub open spec fn addd_val(cv: CurveVal, c: PointVal, d: PointVal) -> PointVal {
    if c == d {
        dbl_val(cv, c)
    } else {
        add_val(cv, c, d)
    }
}

/// One step of left-to-right double-and-add: double the accumulator, and
/// add the base point when the current bit is set.
pub open spec fn smul_step(cv: CurveVal, base: PointVal, prev: PointVal, bit: bool) -> PointVal {
    let t = dbl_val(cv, prev);
    if bit {
        addd_val(cv, t, base)
    } else {
        t
    }
}

/// The accumulator of double-and-add after all bits of `k` above position
/// `i` (exclusive of the top bit, which seeds the accumulator with the base
/// point) have been processed, down to and including position `i`.
pub open spec fn smul_partial(cv: CurveVal, base: PointVal, k: nat, i: nat) -> PointVal
    decreases bits_of(k) - i,
{
    if bits_of(k) <= i + 1 {
        base
    } else {
        smul_step(cv, base, smul_partial(cv, base, k, i + 1), bit_of(k, i))
    }
}

/// The scalar multiple `k * base` as computed by left-to-right
/// double-and-add over the bits of `k`, for `k >= 1`.
pub open spec fn smul_val(cv: CurveVal, base: PointVal, k: nat) -> PointVal {
    smul_partial(cv, base, k, 0)
}

/// Executable equality of points, decided coordinate by coordinate.
pub fn point_eq(c: &Point, d: &Point) -> (r: bool)
    ensures
        r == (c@ == d@),
{
    match (c, d) {
        (Point::Identity, Point::Identity) => true,
        (Point::Coor(x1, y1), Point::Coor(x2, y2)) => big_eq(x1, x2) && big_eq(y1, y2),
        _ => false,
    }
}

proof fn lemma_pow_three(x: int)
    ensures
        pow(x, 3) == x * x * x,
{
    vstd::arithmetic::power::lemma_pow_adds(x, 1, 2);
    vstd::arithmetic::power::lemma_pow1(x);
    lemma_square_is_pow2(x);
    vstd::arithmetic::mul::lemma_mul_is_associative(x, x, x);
}

/// `((u % p) + (v % p)) % p + w`, reduced once more, equals `(u + v + w) % p`.
proof fn lemma_mod_add3(u: int, v: int, w: int, p: int)
    requires
        p >= 1,
    ensures
        ((((u % p) + (v % p)) % p + w) % p) == (u + v + w) % p,
{
    lemma_add_mod_noop(u, v, p);
    lemma_add_mod_noop(u + v, w, p);
    lemma_add_mod_noop_right((u + v) % p, w, p);
    lemma_add_mod_noop_right(u + v, w, p);
}

pub struct EllipticCurve {
    a: BigUint,
    b: BigUint,
    p: BigUint,
}

impl View for EllipticCurve {
    type V = CurveVal;

    closed spec fn view(&self) -> CurveVal {
        CurveVal { a: nat_of(self.a), b: nat_of(self.b), p: nat_of(self.p) }
    }
}

impl EllipticCurve {
    /// A curve `y^2 = x^3 + a*x + b` over `F_p`.
    pub fn new(a: BigUint, b: BigUint, p: BigUint) -> (r: Self)
        ensures
            r@ == (CurveVal { a: nat_of(a), b: nat_of(b), p: nat_of(p) }),
    {
        EllipticCurve { a, b, p }
    }

    /// Whether `c` satisfies the curve equation.
    pub fn is_on_curve(&self, c: &Point) -> (r: bool)
        requires
            self@.p >= 1,
        ensures
            r == on_curve(self@, c@),
    {
        match c {
            Point::Coor(x, y) => {
                let two = big_from_u64(2);
                let three = big_from_u64(3);
                let y2 = big_modpow(y, &two, &self.p);
                let x3 = big_modpow(x, &three, &self.p);
                let ax = FiniteField::mult(&self.a, x, &self.p);
                let x3_plus_ax = FiniteField::add(&x3, &ax, &self.p);
                let rhs = FiniteField::add(&x3_plus_ax, &self.b, &self.p);
                proof {
                    let xv = nat_of(*x) as int;
                    let yv = nat_of(*y) as int;
                    let pv = self@.p as int;
                    lemma_square_is_pow2(yv);
                    lemma_pow_three(xv);
                    lemma_mod_add3(xv * xv * xv, self@.a * xv, self@.b as int, pv);
                }
                big_eq(&y2, &rhs)
            },
            Point::Identity => true,
        }
    }

    /// The chord-and-tangent coordinates `x3 = s^2 - x1 - x2` and
    /// `y3 = s*(x1 - x3) - y1`, modulo `p`.
    fn compute_x3_y3(&self, x1: &BigUint, y1: &BigUint, x2: &BigUint, s: &BigUint) -> (r: (
        BigUint,
        BigUint,
    ))
        requires
            self@.p >= 1,
            nat_of(*x1) < self@.p,
            nat_of(*y1) < self@.p,
            nat_of(*x2) < self@.p,
        ensures
            nat_of(r.0) == chord_val(self@, nat_of(*x1), nat_of(*y1), nat_of(*x2), nat_of(*s)).0,
            nat_of(r.1) == chord_val(self@, nat_of(*x1), nat_of(*y1), nat_of(*x2), nat_of(*s)).1,
            nat_of(r.0) < self@.p,
            nat_of(r.1) < self@.p,
    {
        let two = big_from_u64(2);
        let s2 = big_modpow(s, &two, &self.p);
        proof {
            lemma_square_is_pow2(nat_of(*s) as int);
            vstd::arithmetic::div_mod::lemma_mod_bound(
                (nat_of(*s) * nat_of(*s)) as int,
                self@.p as int,
            );
        }
        let s2_minus_x1 = FiniteField::substract(&s2, x1, &self.p);
        let x3 = FiniteField::substract(&s2_minus_x1, x2, &self.p);

        let x1_minus_x3 = FiniteField::substract(x1, &x3, &self.p);
        let s_mult_x1_minus_x3 = FiniteField::mult(s, &x1_minus_x3, &self.p);
        let y3 = FiniteField::substract(&s_mult_x1_minus_x3, y1, &self.p);

        (x3, y3)
    }

    /// The chord case and the identity/inverse cases of point addition, on
    /// reduced coordinates, without the on-curve precondition.
    fn add_core(&self, c: &Point, d: &Point) -> (r: Point)
        requires
            self@.p >= 2,
            pt_wf(c@, self@.p),
            pt_wf(d@, self@.p),
        ensures
            r@ == add_val(self@, c@, d@),
            pt_wf(r@, self@.p),
    {
        match (c, d) {
            (Point::Identity, _) => d.clone(),
            (_, Point::Identity) => c.clone(),
            (Point::Coor(x1, y1), Point::Coor(x2, y2)) => {
                let y1_plus_y2 = FiniteField::add(y1, y2, &self.p);
                let zero = big_from_u64(0);
                if big_eq(x1, x2) && big_eq(&y1_plus_y2, &zero) {
                    return Point::Identity;
                }

                let numerator = FiniteField::substract(y2, y1, &self.p);
                let denominator = FiniteField::substract(x2, x1, &self.p);
                let s = FiniteField::divide(&numerator, &denominator, &self.p);

                let (x3, y3) = self.compute_x3_y3(x1, y1, x2, &s);
                Point::Coor(x3, y3)
            },
        }
    }

    /// Point addition for two distinct points on the curve.
    pub fn add(&self, c: &Point, d: &Point) -> (r: Point)
        requires
            self@.p >= 2,
            pt_wf(c@, self@.p),
            pt_wf(d@, self@.p),
            on_curve(self@, c@),
            on_curve(self@, d@),
            c@ != d@,
        ensures
            r@ == add_val(self@, c@, d@),
            pt_wf(r@, self@.p),
    {
        self.add_core(c, d)
    }

    /// Unified addition: equal operands are doubled, distinct ones added.
    pub fn add_or_double(&self, c: &Point, d: &Point) -> (r: Point)
        requires
            self@.p >= 2,
            pt_wf(c@, self@.p),
            pt_wf(d@, self@.p),
        ensures
            r@ == addd_val(self@, c@, d@),
            pt_wf(r@, self@.p),
    {
        if point_eq(c, d) {
            self.double(c)
        } else {
            self.add_core(c, d)
        }
    }

    /// Point doubling.
    pub fn double(&self, c: &Point) -> (r: Point)
        requires
            self@.p >= 2,
            pt_wf(c@, self@.p),
        ensures
            r@ == dbl_val(self@, c@),
            pt_wf(r@, self@.p),
    {
        match c {
            Point::Identity => Point::Identity,
            Point::Coor(x1, y1) => {
                let zero = big_from_u64(0);
                if big_eq(y1, &zero) {
                    return Point::Identity;
                }
                let two = big_from_u64(2);
                let three = big_from_u64(3);
                let numerator = big_modpow(x1, &two, &self.p);
                proof {
                    lemma_square_is_pow2(nat_of(*x1) as int);
                }
                let numerator = FiniteField::mult(&three, &numerator, &self.p);
                let numerator = FiniteField::add(&self.a, &numerator, &self.p);
                let denominator = FiniteField::mult(&two, y1, &self.p);
                let s = FiniteField::divide(&numerator, &denominator, &self.p);

                let (x3, y3) = self.compute_x3_y3(x1, y1, x1, &s);
                Point::Coor(x3, y3)
            },
        }
    }

    /// Scalar multiplication `d * c` by left-to-right double-and-add over
    /// the bits of `d`, with equal operands of an addition step dispatched
    /// to doubling.
    pub fn scalar_mult(&self, c: &Point, d: &BigUint) -> (r: Point)
        requires
            self@.p >= 2,
            pt_wf(c@, self@.p),
            nat_of(*d) >= 1,
        ensures
            r@ == smul_val(self@, c@, nat_of(*d)),
            pt_wf(r@, self@.p),
    {
        proof {
            lemma_bits_of_bounds(nat_of(*d));
        }
        let mut t = c.clone();
        let bits = big_bits(d);
        let mut i: u64 = bits - 1;
        while i > 0
            invariant
                self@.p >= 2,
                pt_wf(c@, self@.p),
                pt_wf(t@, self@.p),
                (i as nat) < bits_of(nat_of(*d)),
                t@ == smul_partial(self@, c@, nat_of(*d), i as nat),
            decreases i,
        {
            i = i - 1;
            t = self.double(&t);
            if big_bit(d, i) {
                t = self.add_or_double(&t, c);
            }
        }
        t
    }
}

/// For `n >= 1` the bit length is at least 1; it never exceeds `n`.
pub proof fn lemma_bits_of_bounds(n: nat)
    ensures
        n >= 1 ==> bits_of(n) >= 1,
        bits_of(n) <= n,
    decreases n,
{
    if n > 0 {
        lemma_bits_of_bounds(n / 2);
    }
}

/// The identity is neutral for point addition, on either side.
pub proof fn lemma_add_identity(cv: CurveVal, c: PointVal)
    ensures
        add_val(cv, PointVal::Identity, c) == c,
        add_val(cv, c, PointVal::Identity) == c,
{
}

/// A point and its reflection in the x-axis add to the identity: the chord
/// through `(x, y)` and `(x, p - y)` is vertical.
pub proof fn lemma_add_reflection(cv: CurveVal, x: nat, y: nat)
    requires
        cv.p >= 1,
        1 <= y < cv.p,
    ensures
        add_val(cv, PointVal::Affine(x, y), PointVal::Affine(x, (cv.p - y) as nat))
            == PointVal::Identity,
{
    assert(y + (cv.p - y) as nat == cv.p);
    lemma_mod_self_0(cv.p as int);
}

} // verus!
