//! Number-theoretic groundwork: divisibility, the Euclidean algorithm with
//! Bezout coefficients, Euclid's lemma, modular cancellation, binomial
//! coefficients, and Fermat's little theorem.

use vstd::prelude::*;
use vstd::arithmetic::div_mod::{
    lemma_fundamental_div_mod, lemma_small_mod, lemma_mod_self_0, lemma_mod_multiples_basic,
    lemma_mul_mod_noop_right, lemma_mul_mod_noop_left, lemma_add_mod_noop, lemma_sub_mod_noop,
    lemma_mod_equivalence,
};
use vstd::arithmetic::mul::{lemma_mul_is_commutative, lemma_mul_is_distributive_add};
use vstd::arithmetic::power::{pow, lemma_pow0, lemma_pow1, lemma0_pow, lemma_pow_adds};
use vstd::arithmetic::div_mod::lemma_add_mod_noop_right;

verus! {

/// A prime: at least 2, with no divisor strictly between 1 and itself.
pub open spec fn is_prime(p: nat) -> bool {
    p >= 2 && (forall|d: nat| 1 < d < p ==> #[trigger] (p % d) != 0)
}

/// Greatest common divisor, by the Euclidean algorithm.
spec fn gcd(a: nat, b: nat) -> nat
    decreases b,
{
    if b == 0 {
        a
    } else {
        gcd(b, a % b)
    }
}

/// A linear combination of two multiples of `d` is a multiple of `d`.
proof fn lemma_divides_combo(d: int, k: int, x: int, y: int)
    requires
        d >= 1,
        x % d == 0,
        y % d == 0,
    ensures
        (k * x + y) % d == 0,
{
    lemma_mul_mod_noop_right(k, x, d);
    assert(k * 0 == 0) by (nonlinear_arith);
    lemma_small_mod(0, d as nat);
    lemma_add_mod_noop(k * x, y, d);
}

/// The gcd of `a >= 1` and `b` is positive and divides both.
proof fn lemma_gcd_divides(a: nat, b: nat)
    requires
        a >= 1,
    ensures
        gcd(a, b) >= 1,
        a % gcd(a, b) == 0,
        b % gcd(a, b) == 0,
    decreases b,
{
    if b == 0 {
        lemma_mod_self_0(a as int);
        lemma_small_mod(0, a);
    } else {
        lemma_gcd_divides(b, a % b);
        let g = gcd(b, a % b);
        lemma_fundamental_div_mod(a as int, b as int);
        lemma_mul_is_commutative(b as int, (a / b) as int);
        lemma_divides_combo(g as int, (a / b) as int, b as int, (a % b) as int);
    }
}

/// Bezout coefficients: `gcd(a, b) == a * u + b * v` for the returned
/// `(u, v)`.
proof fn lemma_bezout(a: nat, b: nat) -> (r: (int, int))
    ensures
        gcd(a, b) == a * r.0 + b * r.1,
    decreases b,
{
    if b == 0 {
        assert(gcd(a, b) == a * 1int + b * 0int) by (nonlinear_arith)
            requires
                gcd(a, b) == a,
                b == 0,
        ;
        (1int, 0int)
    } else {
        let (u, v) = lemma_bezout(b, a % b);
        lemma_fundamental_div_mod(a as int, b as int);
        let q = (a / b) as int;
        assert(b * u + (a - q * b) * v == a * v + b * (u - q * v)) by (nonlinear_arith);
        (v, u - q * v)
    }
}

/// A positive divisor of a positive number is no larger than it.
proof fn lemma_divisor_at_most(n: nat, d: nat)
    requires
        n >= 1,
        d >= 1,
        n % d == 0,
    ensures
        d <= n,
{
    if d > n {
        lemma_small_mod(n, d);
    }
}

/// A prime is coprime to anything it does not divide.
proof fn lemma_prime_gcd(p: nat, a: nat)
    requires
        is_prime(p),
        a % p != 0,
    ensures
        gcd(p, a) == 1,
{
    if a == 0 {
        lemma_small_mod(0, p);
    }
    lemma_gcd_divides(p, a);
    let g = gcd(p, a);
    lemma_divisor_at_most(p, g);
    if g == p {
        assert(a % p == 0);
    }
    if 1 < g < p {
        assert(p % g != 0);
    }
}

/// Euclid's lemma: a prime dividing a product divides one of the factors.
pub proof fn lemma_euclid(p: nat, a: nat, b: int)
    requires
        is_prime(p),
        a % p != 0,
        (a * b) % (p as int) == 0,
    ensures
        b % (p as int) == 0,
{
    lemma_prime_gcd(p, a);
    let (u, v) = lemma_bezout(p, a);
    assert(b == (u * b) * p + (a * b) * v) by (nonlinear_arith)
        requires
            1int == p * u + a * v,
    ;
    lemma_mod_multiples_basic(u * b, p as int);
    lemma_mul_mod_noop_left(a * b, v, p as int);
    assert(0int * v == 0) by (nonlinear_arith);
    lemma_small_mod(0, p);
    lemma_add_mod_noop((u * b) * p, (a * b) * v, p as int);
}

/// Cancellation modulo a prime: from `a*x = a*y (mod p)` and `p` not
/// dividing `a`, conclude `x = y (mod p)`.
pub proof fn lemma_mod_cancel(p: nat, a: nat, x: int, y: int)
    requires
        is_prime(p),
        a % p != 0,
        (a * x) % (p as int) == (a * y) % (p as int),
    ensures
        x % (p as int) == y % (p as int),
{
    lemma_sub_mod_noop(a * x, a * y, p as int);
    lemma_small_mod(0, p);
    assert((a * x - a * y) % (p as int) == 0);
    lemma_mul_is_distributive_add(a as int, x, -y);
    assert(a * x - a * y == a * (x - y)) by (nonlinear_arith);
    lemma_euclid(p, a, x - y);
    lemma_mod_equivalence(x, y, p as int);
}

/// The factorial of `n`.
spec fn fact(n: nat) -> nat
    decreases n,
{
    if n == 0 {
        1
    } else {
        n * fact((n - 1) as nat)
    }
}

/// The binomial coefficient, by Pascal's rule; 0 when `k` exceeds `n`.
spec fn binom(n: nat, k: nat) -> nat
    decreases n,
{
    if k == 0 {
        1
    } else if n == 0 {
        0
    } else {
        binom((n - 1) as nat, (k - 1) as nat) + binom((n - 1) as nat, k)
    }
}

/// Above the diagonal the binomial coefficient vanishes.
proof fn lemma_binom_over(n: nat, k: nat)
    requires
        k > n,
    ensures
        binom(n, k) == 0,
    decreases n,
{
    if n > 0 {
        lemma_binom_over((n - 1) as nat, (k - 1) as nat);
        lemma_binom_over((n - 1) as nat, k);
    }
}

/// On the diagonal the binomial coefficient is 1.
proof fn lemma_binom_diag(n: nat)
    ensures
        binom(n, n) == 1,
    decreases n,
{
    if n > 0 {
        lemma_binom_diag((n - 1) as nat);
        lemma_binom_over((n - 1) as nat, n);
    }
}

/// The factorial form of the binomial coefficient, cleared of divisions:
/// `binom(n, k) * k! * (n-k)! == n!`.
proof fn lemma_binom_fact(n: nat, k: nat)
    requires
        k <= n,
    ensures
        binom(n, k) * fact(k) * fact((n - k) as nat) == fact(n),
    decreases n,
{
    if k == 0 {
        assert(binom(n, 0) == 1);
        assert(1 * fact(0) * fact(n) == fact(n)) by (nonlinear_arith)
            requires
                fact(0) == 1,
        ;
    } else if k == n {
        lemma_binom_diag(n);
        assert(1 * fact(n) * fact(0) == fact(n)) by (nonlinear_arith)
            requires
                fact(0) == 1,
        ;
    } else {
        let n1 = (n - 1) as nat;
        let k1 = (k - 1) as nat;
        let nk = (n - k) as nat;
        let nk1 = (n - k - 1) as nat;
        lemma_binom_fact(n1, k1);
        lemma_binom_fact(n1, k);
        let b1 = binom(n1, k1);
        let b2 = binom(n1, k);
        assert(binom(n, k) == b1 + b2);
        assert((n1 - k1) as nat == nk);
        assert((n1 - k) as nat == nk1);
        assert(fact(k) == k * fact(k1));
        assert(fact(nk) == nk * fact(nk1));
        assert(fact(n) == n * fact(n1));
        assert((b1 + b2) * (k * fact(k1)) * (nk * fact(nk1)) == n * fact(n1))
            by (nonlinear_arith)
            requires
                b1 * fact(k1) * fact(nk) == fact(n1),
                b2 * fact(k) * fact(nk1) == fact(n1),
                fact(k) == k * fact(k1),
                fact(nk) == nk * fact(nk1),
                k + nk == n,
        ;
    }
}

/// No factorial below a prime is divisible by it.
proof fn lemma_fact_not_div(p: nat, k: nat)
    requires
        is_prime(p),
        k < p,
    ensures
        fact(k) % p != 0,
    decreases k,
{
    if k == 0 {
        lemma_small_mod(1, p);
    } else {
        lemma_fact_not_div(p, (k - 1) as nat);
        lemma_small_mod(k, p);
        if fact(k) % p == 0 {
            lemma_euclid(p, k, fact((k - 1) as nat) as int);
        }
    }
}

/// A prime divides every interior entry of its own row of Pascal's
/// triangle: `p | binom(p, k)` for `0 < k < p`.
proof fn lemma_prime_divides_binom(p: nat, k: nat)
    requires
        is_prime(p),
        0 < k < p,
    ensures
        binom(p, k) % p == 0,
{
    lemma_binom_fact(p, k);
    let c = binom(p, k);
    let m = fact(k) * fact((p - k) as nat);
    assert(fact(p) == p * fact((p - 1) as nat));
    lemma_mod_multiples_basic(fact((p - 1) as nat) as int, p as int);
    lemma_mul_is_commutative(fact((p - 1) as nat) as int, p as int);
    assert(fact(p) % p == 0);
    lemma_fact_not_div(p, k);
    lemma_fact_not_div(p, (p - k) as nat);
    if m % p == 0 {
        lemma_euclid(p, fact(k), fact((p - k) as nat) as int);
    }
    assert(m * c == fact(p)) by (nonlinear_arith)
        requires
            c * fact(k) * fact((p - k) as nat) == fact(p),
            m == fact(k) * fact((p - k) as nat),
    ;
    lemma_euclid(p, m, c as int);
}

/// The partial binomial expansion `sum of binom(n, j) * x^j over j < k`.
spec fn bsum(x: int, n: nat, k: nat) -> int
    decreases k,
{
    if k == 0 {
        0
    } else {
        bsum(x, n, (k - 1) as nat) + binom(n, (k - 1) as nat) * pow(x, (k - 1) as nat)
    }
}

/// Pascal's rule, summed: the expansion over row `n` splits into the two
/// shifted expansions over row `n - 1`.
proof fn lemma_bsum_shift(x: int, n: nat, k: nat)
    requires
        n >= 1,
    ensures
        bsum(x, n, (k + 1) as nat) == x * bsum(x, (n - 1) as nat, k) + bsum(
            x,
            (n - 1) as nat,
            (k + 1) as nat,
        ),
    decreases k,
{
    let n1 = (n - 1) as nat;
    if k == 0 {
        lemma_pow0(x);
        assert(bsum(x, n, 0) == 0);
        assert(bsum(x, n1, 0) == 0);
        assert(bsum(x, n, 1) == 0 + binom(n, 0) * pow(x, 0));
        assert(bsum(x, n1, 1) == 0 + binom(n1, 0) * pow(x, 0));
        assert(x * bsum(x, n1, 0) == 0) by (nonlinear_arith)
            requires
                bsum(x, n1, 0) == 0,
        ;
    } else {
        let k1 = (k - 1) as nat;
        lemma_bsum_shift(x, n, k1);
        let b1 = binom(n1, k1);
        let b2 = binom(n1, k);
        assert(binom(n, k) == b1 + b2);
        lemma_pow_adds(x, 1, k1);
        lemma_pow1(x);
        assert(pow(x, k) == x * pow(x, k1));
        assert(bsum(x, n, (k + 1) as nat) == bsum(x, n, k) + binom(n, k) * pow(x, k));
        assert(bsum(x, n1, (k + 1) as nat) == bsum(x, n1, k) + b2 * pow(x, k));
        assert(bsum(x, n1, k) == bsum(x, n1, k1) + b1 * pow(x, k1));
        let s1 = bsum(x, n1, k1);
        let s2 = bsum(x, n1, k);
        assert((x * s1 + s2) + (b1 + b2) * (x * pow(x, k1)) == x * (s1 + b1 * pow(x, k1)) + (s2
            + b2 * (x * pow(x, k1)))) by (nonlinear_arith);
    }
}

/// The binomial theorem for `(x + 1)^n`.
proof fn lemma_binomial(x: int, n: nat)
    ensures
        pow(x + 1, n) == bsum(x, n, (n + 1) as nat),
    decreases n,
{
    if n == 0 {
        lemma_pow0(x + 1);
        lemma_pow0(x);
        assert(bsum(x, 0, 0) == 0);
        assert(bsum(x, 0, 1) == 0 + binom(0, 0) * pow(x, 0));
    } else {
        let n1 = (n - 1) as nat;
        lemma_binomial(x, n1);
        lemma_bsum_shift(x, n, n);
        lemma_binom_over(n1, n);
        let s = bsum(x, n1, (n + 1) as nat);
        assert(s == bsum(x, n1, n) + binom(n1, n) * pow(x, n));
        assert(binom(n1, n) * pow(x, n) == 0) by (nonlinear_arith)
            requires
                binom(n1, n) == 0,
        ;
        let b = bsum(x, n1, n);
        lemma_pow_adds(x + 1, 1, n1);
        lemma_pow1(x + 1);
        assert(pow(x + 1, n) == (x + 1) * pow(x + 1, n1));
        assert((x + 1) * b == x * b + b) by (nonlinear_arith);
    }
}

/// Modulo `p`, only the constant term of the expansion over row `p`
/// survives below the diagonal: `bsum(x, p, k) = 1 (mod p)` for
/// `1 <= k <= p`.
proof fn lemma_bsum_mod(x: int, p: nat, k: nat)
    requires
        is_prime(p),
        1 <= k <= p,
    ensures
        bsum(x, p, k) % (p as int) == 1,
    decreases k,
{
    if k == 1 {
        lemma_pow0(x);
        assert(bsum(x, p, 0) == 0);
        assert(bsum(x, p, 1) == 0 + binom(p, 0) * pow(x, 0));
        lemma_small_mod(1, p);
    } else {
        let k1 = (k - 1) as nat;
        lemma_bsum_mod(x, p, k1);
        lemma_prime_divides_binom(p, k1);
        let t = binom(p, k1) * pow(x, k1);
        lemma_mul_mod_noop_left(binom(p, k1) as int, pow(x, k1), p as int);
        assert(0int * pow(x, k1) == 0) by (nonlinear_arith);
        lemma_small_mod(0, p);
        assert(t % (p as int) == 0);
        lemma_add_mod_noop(bsum(x, p, k1), t, p as int);
        lemma_small_mod(1, p);
    }
}

/// The freshman's dream: `(x + 1)^p = x^p + 1 (mod p)` for prime `p`.
proof fn lemma_freshman(x: int, p: nat)
    requires
        is_prime(p),
    ensures
        pow(x + 1, p) % (p as int) == (pow(x, p) + 1) % (p as int),
{
    lemma_binomial(x, p);
    lemma_binom_diag(p);
    lemma_bsum_mod(x, p, p);
    assert(bsum(x, p, (p + 1) as nat) == bsum(x, p, p) + binom(p, p) * pow(x, p));
    assert(1int * pow(x, p) == pow(x, p)) by (nonlinear_arith);
    lemma_add_mod_noop_right(pow(x, p), bsum(x, p, p), p as int);
    lemma_add_mod_noop_right(pow(x, p), 1, p as int);
    lemma_small_mod(1, p);
    assert(pow(x, p) + bsum(x, p, p) == bsum(x, p, (p + 1) as nat));
}

/// `x^p = x (mod p)` for prime `p` and every natural `x`.
proof fn lemma_flt_general(x: nat, p: nat)
    requires
        is_prime(p),
    ensures
        pow(x as int, p) % (p as int) == x % p,
    decreases x,
{
    if x == 0 {
        lemma0_pow(p);
        lemma_small_mod(0, p);
    } else {
        let x1 = (x - 1) as nat;
        lemma_flt_general(x1, p);
        lemma_freshman(x1 as int, p);
        lemma_add_mod_noop(pow(x1 as int, p), 1, p as int);
        lemma_add_mod_noop(x1 as int, 1, p as int);
        lemma_small_mod(1, p);
    }
}

/// Fermat's little theorem: `x^(p-1) = 1 (mod p)` for prime `p` and `x`
/// not divisible by `p`.
pub proof fn lemma_fermat(p: nat, x: nat)
    requires
        is_prime(p),
        x % p != 0,
    ensures
        pow(x as int, (p - 1) as nat) % (p as int) == 1,
{
    lemma_flt_general(x, p);
    lemma_pow_adds(x as int, 1, (p - 1) as nat);
    lemma_pow1(x as int);
    assert(x as int * 1 == x) by (nonlinear_arith);
    lemma_mod_cancel(p, x, pow(x as int, (p - 1) as nat), 1);
    lemma_small_mod(1, p);
}

} // verus!
