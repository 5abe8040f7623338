//! ECDSA signing and verification over a short Weierstrass elliptic curve
//! on a prime finite field, built on arbitrary-precision unsigned
//! integers.
//!
//! The layers, from the bottom up:
//! - [`bignat`]: the trusted boundary around `num_bigint::BigUint`;
//! - [`field`]: modular arithmetic over a caller-supplied prime;
//! - [`curve`]: affine-coordinate group operations on the curve;
//! - [`digest`]: the trusted boundary around SHA-256 and hex decoding;
//! - [`ecdsa`]: key generation, signing and verification.

pub mod bignat;
pub mod field;
pub mod primes;
pub mod curve;
pub mod curve_laws;
pub mod digest;
pub mod ecdsa;

pub use curve::{EllipticCurve, Point};
pub use field::FiniteField;
