//! Modular arithmetic over a caller-supplied prime modulus.
//!
//! Every operation takes operands below the modulus to results below the
//! modulus; the spec functions `f_add`, `f_mul`, `f_neg`, `f_sub`, `f_inv`
//! and `f_div` are the mathematical meaning of the executable methods.

use vstd::prelude::*;
use vstd::arithmetic::power::{pow, lemma_pow1};
use vstd::arithmetic::div_mod::lemma_mod_bound;
use num_bigint::BigUint;
use crate::bignat::{nat_of, big_add, big_mul, big_sub, big_modpow, big_eq, big_from_u64};
use crate::primes::{is_prime, lemma_fermat};

verus! {

/// `(c + d) mod p`.
pub open spec fn f_add(c: nat, d: nat, p: nat) -> nat {
    (c + d) % p
}

/// `(c * d) mod p`.
pub open spec fn f_mul(c: nat, d: nat, p: nat) -> nat {
    (c * d) % p
}

/// The additive inverse of `c` modulo `p`, normalized into `[0, p)`.
pub open spec fn f_neg(c: nat, p: nat) -> nat {
    if c == 0 {
        0
    } else {
        (p - c) as nat
    }
}

/// `(c - d) mod p`, computed as `c + (-d) mod p`.
pub open spec fn f_sub(c: nat, d: nat, p: nat) -> nat {
    f_add(c, f_neg(d, p), p)
}

/// `c ^ (p - 2) mod p`: the multiplicative inverse of `c` when `p` is prime
/// and `c` is not divisible by `p` (Fermat's little theorem).
pub open spec fn f_inv(c: nat, p: nat) -> nat {
    (pow(c as int, (p - 2) as nat) % (p as int)) as nat
}

/// `c / d mod p`, computed as `c * d^(p-2) mod p`.
pub open spec fn f_div(c: nat, d: nat, p: nat) -> nat {
    f_mul(c, f_inv(d, p), p)
}

pub struct FiniteField {}

impl FiniteField {
    /// Modular addition: `(c + d) mod p`.
    pub fn add(c: &BigUint, d: &BigUint, p: &BigUint) -> (r: BigUint)
        requires
            nat_of(*p) >= 1,
        ensures
            nat_of(r) == f_add(nat_of(*c), nat_of(*d), nat_of(*p)),
            nat_of(r) < nat_of(*p),
    {
        let s = big_add(c, d);
        let one = big_from_u64(1);
        let r = big_modpow(&s, &one, p);
        proof {
            lemma_pow1(nat_of(s) as int);
            lemma_mod_bound(nat_of(s) as int, nat_of(*p) as int);
        }
        r
    }

    /// Modular multiplication: `(c * d) mod p`.
    pub fn mult(c: &BigUint, d: &BigUint, p: &BigUint) -> (r: BigUint)
        requires
            nat_of(*p) >= 1,
        ensures
            nat_of(r) == f_mul(nat_of(*c), nat_of(*d), nat_of(*p)),
            nat_of(r) < nat_of(*p),
    {
        let s = big_mul(c, d);
        let one = big_from_u64(1);
        let r = big_modpow(&s, &one, p);
        proof {
            lemma_pow1(nat_of(s) as int);
            lemma_mod_bound(nat_of(s) as int, nat_of(*p) as int);
        }
        r
    }

    /// The additive inverse of `c` modulo `p`: `p - c` for `c > 0`, and `0`
    /// for `c = 0`.
    pub fn inv_addition(c: &BigUint, p: &BigUint) -> (r: BigUint)
        requires
            nat_of(*c) < nat_of(*p),
        ensures
            nat_of(r) == f_neg(nat_of(*c), nat_of(*p)),
            nat_of(r) < nat_of(*p),
    {
        let zero = big_from_u64(0);
        if big_eq(c, &zero) {
            zero
        } else {
            big_sub(p, c)
        }
    }

    /// Modular subtraction: `(c - d) mod p`.
    pub fn substract(c: &BigUint, d: &BigUint, p: &BigUint) -> (r: BigUint)
        requires
            nat_of(*d) < nat_of(*p),
        ensures
            nat_of(r) == f_sub(nat_of(*c), nat_of(*d), nat_of(*p)),
            nat_of(r) < nat_of(*p),
    {
        let d_inv = FiniteField::inv_addition(d, p);
        FiniteField::add(c, &d_inv, p)
    }

    /// The Fermat inverse `c^(p-2) mod p`, valid as a multiplicative inverse
    /// only for prime `p` and `c` not divisible by `p`.
    pub fn inv_multiplication(c: &BigUint, p: &BigUint) -> (r: BigUint)
        requires
            nat_of(*p) >= 2,
        ensures
            nat_of(r) == f_inv(nat_of(*c), nat_of(*p)),
            nat_of(r) < nat_of(*p),
    {
        let two = big_from_u64(2);
        let e = big_sub(p, &two);
        let r = big_modpow(c, &e, p);
        proof {
            lemma_mod_bound(pow(nat_of(*c) as int, (nat_of(*p) - 2) as nat), nat_of(*p) as int);
        }
        r
    }

    /// Modular division: `c * d^(p-2) mod p`.
    pub fn divide(c: &BigUint, d: &BigUint, p: &BigUint) -> (r: BigUint)
        requires
            nat_of(*p) >= 2,
        ensures
            nat_of(r) == f_div(nat_of(*c), nat_of(*d), nat_of(*p)),
            nat_of(r) < nat_of(*p),
    {
        let d_inv = FiniteField::inv_multiplication(d, p);
        FiniteField::mult(c, &d_inv, p)
    }
}

/// Sums, products and differences of field elements stay in the field:
/// for any `c` and `d`, `f_add`, `f_mul` and `f_sub` land in `[0, p)`.
pub proof fn lemma_field_ops_closed(c: nat, d: nat, p: nat)
    requires
        p >= 1,
    ensures
        f_add(c, d, p) < p,
        f_mul(c, d, p) < p,
        d < p ==> f_sub(c, d, p) < p,
{
    lemma_mod_bound((c + d) as int, p as int);
    lemma_mod_bound((c * d) as int, p as int);
    lemma_mod_bound((c + f_neg(d, p)) as int, p as int);
}

/// Adding the additive inverse yields zero: for every `c` in `[0, p)`,
/// `(c + f_neg(c, p)) mod p == 0`.
pub proof fn lemma_add_neg_is_zero(c: nat, p: nat)
    requires
        p >= 1,
        c < p,
    ensures
        f_add(c, f_neg(c, p), p) == 0,
{
    if c == 0 {
        assert((0 as nat) % p == 0) by {
            vstd::arithmetic::div_mod::lemma_small_mod(0, p);
        }
    } else {
        assert(c + f_neg(c, p) == p);
        assert((p as int) % (p as int) == 0) by {
            vstd::arithmetic::div_mod::lemma_mod_self_0(p as int);
        }
    }
}

/// Fermat inversion really inverts: for prime `p` and any `c` in `[1, p)`,
/// `f_mul(c, f_inv(c, p), p) == 1`.
pub proof fn lemma_mul_inv_identity(c: nat, p: nat)
    requires
        is_prime(p),
        1 <= c < p,
    ensures
        f_mul(c, f_inv(c, p), p) == 1,
{
    vstd::arithmetic::div_mod::lemma_mul_mod_noop_right(
        c as int,
        pow(c as int, (p - 2) as nat),
        p as int,
    );
    vstd::arithmetic::power::lemma_pow_adds(c as int, 1, (p - 2) as nat);
    lemma_pow1(c as int);
    vstd::arithmetic::div_mod::lemma_small_mod(c, p);
    lemma_fermat(p, c);
}

} // verus!
