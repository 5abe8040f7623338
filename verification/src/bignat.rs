//! Trusted boundary around `num_bigint::BigUint`.
//!
//! A `BigUint` is opaque to the verifier; the uninterpreted function
//! [`nat_of`] names the non-negative integer it holds, and every operation
//! the library needs is wrapped in a function whose contract states, over
//! `nat_of`, what the `num_bigint` source shows.

use vstd::prelude::*;
use vstd::arithmetic::power::pow;
use vstd::arithmetic::power2::pow2;
use num_bigint::BigUint;

verus! {

#[verifier::external_type_specification]
#[verifier::external_body]
pub struct ExBigUint(BigUint);

/// The non-negative integer value that a `BigUint` holds.
pub uninterp spec fn nat_of(b: BigUint) -> nat;

/// Number of binary digits of `n`: 0 for 0, otherwise one more than for `n / 2`.
pub open spec fn bits_of(n: nat) -> nat
    decreases n,
{
    if n == 0 {
        0
    } else {
        1 + bits_of(n / 2)
    }
}

/// Whether bit `i` (counted from the least significant bit) of `n` is set.
pub open spec fn bit_of(n: nat, i: nat) -> bool {
    (n / pow2(i)) % 2 == 1
}

/// The big-endian base-256 value of a byte string.
pub open spec fn bytes_be_val(s: Seq<u8>) -> nat
    decreases s.len(),
{
    if s.len() == 0 {
        0
    } else {
        bytes_be_val(s.drop_last()) * 256 + (s.last() as nat)
    }
}

/// Relies on `<BigUint as From<u64>>::from`: the result holds exactly `x`.
#[verifier::external_body]
pub fn big_from_u64(x: u64) -> (r: BigUint)
    ensures
        nat_of(r) == x as nat,
{
    BigUint::from(x)
}

/// Relies on `<BigUint as Clone>::clone`: the copy holds the same value.
#[verifier::external_body]
pub fn big_clone(a: &BigUint) -> (r: BigUint)
    ensures
        nat_of(r) == nat_of(*a),
{
    a.clone()
}

/// Relies on `<BigUint as PartialEq>::eq`: two `BigUint`s are equal exactly
/// when they hold the same value (the representation is canonical).
#[verifier::external_body]
pub fn big_eq(a: &BigUint, b: &BigUint) -> (r: bool)
    ensures
        r == (nat_of(*a) == nat_of(*b)),
{
    a == b
}

/// Relies on `<&BigUint as Add>::add`: plain bignum addition.
#[verifier::external_body]
pub fn big_add(a: &BigUint, b: &BigUint) -> (r: BigUint)
    ensures
        nat_of(r) == nat_of(*a) + nat_of(*b),
{
    a + b
}

/// Relies on `<&BigUint as Sub>::sub`: plain bignum subtraction, which
/// panics on underflow, so the minuend must not be smaller.
#[verifier::external_body]
pub fn big_sub(a: &BigUint, b: &BigUint) -> (r: BigUint)
    requires
        nat_of(*b) <= nat_of(*a),
    ensures
        nat_of(r) == nat_of(*a) - nat_of(*b),
{
    a - b
}

/// Relies on `<&BigUint as Mul>::mul`: plain bignum multiplication.
#[verifier::external_body]
pub fn big_mul(a: &BigUint, b: &BigUint) -> (r: BigUint)
    ensures
        nat_of(r) == nat_of(*a) * nat_of(*b),
{
    a * b
}

/// Relies on `BigUint::modpow`: returns `(self ^ exponent) % modulus` and
/// panics if the modulus is zero, so the modulus must be positive.
#[verifier::external_body]
pub fn big_modpow(b: &BigUint, e: &BigUint, m: &BigUint) -> (r: BigUint)
    requires
        nat_of(*m) >= 1,
    ensures
        nat_of(r) == pow(nat_of(*b) as int, nat_of(*e)) % (nat_of(*m) as int),
{
    b.modpow(e, m)
}

/// Relies on `BigUint::bits`: the fewest bits necessary to express the
/// value, which is 0 for 0 and the position of the highest set bit plus one
/// otherwise.
#[verifier::external_body]
pub fn big_bits(b: &BigUint) -> (r: u64)
    ensures
        r as nat == bits_of(nat_of(*b)),
{
    b.bits()
}

/// Relies on `BigUint::bit`: whether the bit in the given position is set.
#[verifier::external_body]
pub fn big_bit(b: &BigUint, i: u64) -> (r: bool)
    ensures
        r == bit_of(nat_of(*b), i as nat),
{
    b.bit(i)
}

/// Relies on `BigUint::from_bytes_be`: reads the bytes as a big-endian
/// base-256 number.
#[verifier::external_body]
pub fn big_from_bytes_be(bytes: &Vec<u8>) -> (r: BigUint)
    ensures
        nat_of(r) == bytes_be_val(bytes@),
{
    BigUint::from_bytes_be(bytes)
}

} // verus!
