//! The ECDSA protocol layer: key generation, signing, verification, and
//! hash-to-scalar reduction, over a group specification made of a curve, a
//! generator point and the (prime) order of the subgroup it generates.

use vstd::prelude::*;
use vstd::pervasive::unreached;
use vstd::arithmetic::power::lemma_pow1;
use vstd::arithmetic::div_mod::lemma_mod_bound;
use num_bigint::BigUint;
use num_bigint::RandBigInt;
use crate::bignat::{
    nat_of, bytes_be_val, big_add, big_sub, big_modpow, big_eq, big_from_u64, big_from_bytes_be,
};
use crate::field::{f_add, f_mul, f_inv, FiniteField};
use crate::curve::{
    EllipticCurve, Point, PointVal, CurveVal, pt_wf, smul_val, addd_val, point_eq,
};
use crate::digest::{sha_hex, sha_hex_of, decode_hex, hex_pair_bytes, is_hex_digit};
use crate::primes::is_prime;
use crate::curve_laws::{
    cong, lemma_cong_add, lemma_cong_mul, lemma_f_add_cong, lemma_f_mul_cong, lemma_f_inv_mul,
    lemma_cong_unique,
};

verus! {

/// The recoverable failure of signing: the chosen nonce maps the generator
/// to the identity, so no x-coordinate is available.
#[derive(PartialEq, Debug)]
pub enum EcdsaError {
    InvalidNonce,
}

pub struct ECDSA {
    elliptic_curve: EllipticCurve,
    a_gen: Point,
    q_order: BigUint,
}

/// The mathematical value of an ECDSA group specification.
pub struct EcdsaVal {
    pub curve: CurveVal,
    pub gen: PointVal,
    pub order: nat,
}

impl View for ECDSA {
    type V = EcdsaVal;

    closed spec fn view(&self) -> EcdsaVal {
        EcdsaVal {
            curve: self.elliptic_curve@,
            gen: self.a_gen@,
            order: nat_of(self.q_order),
        }
    }
}

/// Well-formedness of a group specification: the field modulus and the
/// group order admit Fermat inversion, and the generator is reduced.
pub open spec fn ecdsa_wf(v: EcdsaVal) -> bool {
    &&& v.curve.p >= 2
    &&& v.order >= 2
    &&& pt_wf(v.gen, v.curve.p)
}

/// The scalar that [`ECDSA::generate_hash_less_than`] derives from a
/// message: the SHA-256 digest read as a big-endian number, reduced into
/// `[1, m - 1]` by `(h mod (m - 1)) + 1`.
pub open spec fn hash_scalar(msg: Seq<char>, m: nat) -> nat {
    bytes_be_val(hex_pair_bytes(sha_hex_of(msg))) % ((m - 1) as nat) + 1
}

impl ECDSA {
    /// A group specification from a curve, a generator and the order of
    /// the subgroup the generator generates.
    pub fn new(elliptic_curve: EllipticCurve, a_gen: Point, q_order: BigUint) -> (r: Self)
        ensures
            r@ == (EcdsaVal {
                curve: elliptic_curve@,
                gen: a_gen@,
                order: nat_of(q_order),
            }),
    {
        ECDSA { elliptic_curve, a_gen, q_order }
    }

    /// A key pair `(d, Q)` with `d` drawn uniformly from `[1, n)` and
    /// `Q = d * G`.
    pub fn generate_key_pair(&self) -> (r: (BigUint, Point))
        requires
            ecdsa_wf(self@),
        ensures
            1 <= nat_of(r.0) < self@.order,
            r.1@ == smul_val(self@.curve, self@.gen, nat_of(r.0)),
            pt_wf(r.1@, self@.curve.p),
    {
        let priv_key = self.generate_priv_key();
        let pub_key = self.generate_pub_key(&priv_key);
        (priv_key, pub_key)
    }

    /// A private key: a uniform draw from `[1, n)`.
    pub fn generate_priv_key(&self) -> (r: BigUint)
        requires
            self@.order >= 2,
        ensures
            1 <= nat_of(r) < self@.order,
    {
        self.generate_random_positive_number_less_than(&self.q_order)
    }

    /// The public key `d * G` for a private key `d`.
    pub fn generate_pub_key(&self, priv_key: &BigUint) -> (r: Point)
        requires
            ecdsa_wf(self@),
            nat_of(*priv_key) >= 1,
        ensures
            r@ == smul_val(self@.curve, self@.gen, nat_of(*priv_key)),
            pt_wf(r@, self@.curve.p),
    {
        self.elliptic_curve.scalar_mult(&self.a_gen, priv_key)
    }

    /// A uniform draw from `[1, max)`. Relies on `rand::thread_rng` and on
    /// `num_bigint::RandBigInt::gen_biguint_range`, which panics unless
    /// the lower bound is below the upper; nothing beyond the range can be
    /// promised of a random outcome.
    #[verifier::external_body]
    pub fn generate_random_positive_number_less_than(&self, max: &BigUint) -> (r: BigUint)
        requires
            nat_of(*max) >= 2,
        ensures
            1 <= nat_of(r) < nat_of(*max),
    {
        let mut rng = rand::thread_rng();
        rng.gen_biguint_range(&BigUint::from(1u32), max)
    }

    /// Sign a hash scalar with private key `d` and nonce `k`:
    /// `R = k * G` must be affine, `r` is its x-coordinate, and
    /// `s = (hash + d * r) * k^(-1) mod n`; a nonce that maps the
    /// generator to the identity is rejected as `InvalidNonce`.
    pub fn sign(&self, hash: &BigUint, priv_key: &BigUint, k_random: &BigUint) -> (r: Result<
        (BigUint, BigUint),
        EcdsaError,
    >)
        requires
            ecdsa_wf(self@),
            nat_of(*hash) < self@.order,
            nat_of(*priv_key) < self@.order,
            1 <= nat_of(*k_random) < self@.order,
        ensures
            ({
                let n = self@.order;
                let rp = smul_val(self@.curve, self@.gen, nat_of(*k_random));
                match r {
                    Ok(sig) => rp matches PointVal::Affine(xr, _) && nat_of(sig.0) == xr
                        && nat_of(sig.1) == f_mul(
                        f_add(f_mul(xr, nat_of(*priv_key), n), nat_of(*hash), n),
                        f_inv(nat_of(*k_random), n),
                        n,
                    ),
                    Err(_) => rp == PointVal::Identity,
                }
            }),
    {
        let r_point = self.elliptic_curve.scalar_mult(&self.a_gen, k_random);

        match r_point {
            Point::Coor(r, _y) => {
                let s = FiniteField::mult(&r, priv_key, &self.q_order);
                let s = FiniteField::add(&s, hash, &self.q_order);
                let k_inv = FiniteField::inv_multiplication(k_random, &self.q_order);
                let s = FiniteField::mult(&s, &k_inv, &self.q_order);
                Ok((r, s))
            },
            Point::Identity => Err(EcdsaError::InvalidNonce),
        }
    }

    /// Verify a signature `(r, s)` of a hash scalar against a public key:
    /// with `u1 = s^(-1) * hash mod n` and `u2 = s^(-1) * r mod n`, the
    /// point `u1 * G + u2 * Q` must be affine with x-coordinate `r`.
    pub fn verify(&self, hash: &BigUint, pub_key: &Point, signature: &(BigUint, BigUint)) -> (res:
        bool)
        requires
            ecdsa_wf(self@),
            nat_of(*hash) < self@.order,
            pt_wf(pub_key@, self@.curve.p),
            f_mul(f_inv(nat_of(signature.1), self@.order), nat_of(*hash), self@.order) >= 1,
            f_mul(f_inv(nat_of(signature.1), self@.order), nat_of(signature.0), self@.order) >= 1,
        ensures
            ({
                let n = self@.order;
                let u1 = f_mul(f_inv(nat_of(signature.1), n), nat_of(*hash), n);
                let u2 = f_mul(f_inv(nat_of(signature.1), n), nat_of(signature.0), n);
                let pt = addd_val(
                    self@.curve,
                    smul_val(self@.curve, self@.gen, u1),
                    smul_val(self@.curve, pub_key@, u2),
                );
                res == (pt matches PointVal::Affine(xp, _) && xp == nat_of(signature.0))
            }),
    {
        let s_inv = FiniteField::inv_multiplication(&signature.1, &self.q_order);
        let u1 = FiniteField::mult(&s_inv, hash, &self.q_order);
        let u2 = FiniteField::mult(&s_inv, &signature.0, &self.q_order);
        let u1_a = self.elliptic_curve.scalar_mult(&self.a_gen, &u1);
        let u2_b = self.elliptic_curve.scalar_mult(pub_key, &u2);
        let p = self.elliptic_curve.add_or_double(&u1_a, &u2_b);

        match p {
            Point::Coor(xp, _y) => big_eq(&xp, &signature.0),
            Point::Identity => false,
        }
    }

    /// The hash scalar of a message: SHA-256 the message, read the digest
    /// as a big-endian number, and reduce it into `[1, max - 1]` by
    /// `(h mod (max - 1)) + 1`.
    pub fn generate_hash_less_than(&self, message: &str, max: &BigUint) -> (r: BigUint)
        requires
            nat_of(*max) >= 2,
        ensures
            nat_of(r) == hash_scalar(message@, nat_of(*max)),
            1 <= nat_of(r) < nat_of(*max),
    {
        let digest = sha_hex(message);
        let hash_bytes = match decode_hex(digest.as_str()) {
            Some(v) => v,
            None => unreached(),
        };
        let hash = big_from_bytes_be(&hash_bytes);
        let one = big_from_u64(1);
        let max_minus_one = big_sub(max, &one);
        let hash = big_modpow(&hash, &one, &max_minus_one);
        proof {
            lemma_pow1(bytes_be_val(hex_pair_bytes(sha_hex_of(message@))) as int);
            lemma_mod_bound(
                bytes_be_val(hex_pair_bytes(sha_hex_of(message@))) as int,
                nat_of(*max) - 1,
            );
        }
        let hash = big_add(&hash, &one);
        hash
    }
}

/// The scalar identity behind verification of an honest signature: when
/// `s = (h + d*r) * k^(-1) mod n` is the second signature component for a
/// nonce `k` in `[1, n)` and `s` is not zero, the verifier's scalars
/// `u1 = s^(-1)*h mod n` and `u2 = s^(-1)*r mod n` satisfy
/// `u1 + u2*d = k (mod n)`. (That `u1*G + u2*(d*G)` then equals `k*G` is a
/// property of the curve group that is not stated here.)
pub proof fn lemma_honest_signature_scalars(n: nat, h: nat, d: nat, r: nat, k: nat)
    requires
        is_prime(n),
        h < n,
        d < n,
        1 <= k < n,
        f_mul(f_add(f_mul(r, d, n), h, n), f_inv(k, n), n) != 0,
    ensures
        ({
            let s = f_mul(f_add(f_mul(r, d, n), h, n), f_inv(k, n), n);
            let u1 = f_mul(f_inv(s, n), h, n);
            let u2 = f_mul(f_inv(s, n), r, n);
            f_add(u1, f_mul(u2, d, n), n) == k
        }),
{
    let rd = f_mul(r, d, n);
    let t = f_add(rd, h, n);
    let ki = f_inv(k, n);
    let s = f_mul(t, ki, n);
    let si = f_inv(s, n);
    let u1 = f_mul(si, h, n);
    let u2 = f_mul(si, r, n);

    lemma_f_mul_cong(r, d, n);
    lemma_f_add_cong(rd, h, n);
    assert(cong(t as int, r as int * d + h, n)) by {
        lemma_cong_add(n, rd as int, h as int, r as int * d, h as int);
    }

    // s * k = t (mod n): the Fermat inverse of the nonce cancels
    lemma_f_mul_cong(t, ki, n);
    assert(s < n);
    lemma_cong_mul(n, s as int, k as int, t as int * ki, k as int);
    assert((t as int * ki) * k == t as int * (ki as int * k)) by (nonlinear_arith);
    lemma_f_inv_mul(k, n);
    lemma_cong_mul(n, t as int, ki as int * k, t as int, 1);
    assert(cong(s as int * k, t as int, n));

    // u1 + u2*d = s^(-1) * (h + r*d) = s^(-1) * s * k = k (mod n)
    lemma_f_mul_cong(si, h, n);
    lemma_f_mul_cong(si, r, n);
    lemma_f_mul_cong(u2, d, n);
    lemma_cong_mul(n, u2 as int, d as int, si as int * r, d as int);
    assert((si as int * r) * d == si as int * (r as int * d)) by (nonlinear_arith);
    lemma_f_add_cong(u1, f_mul(u2, d, n), n);
    lemma_cong_add(n, u1 as int, f_mul(u2, d, n) as int, si as int * h, si as int * (r as int * d));
    assert(si as int * h + si as int * (r as int * d) == si as int * (h + r as int * d))
        by (nonlinear_arith);
    lemma_cong_mul(n, si as int, h + r as int * d, si as int, t as int);
    lemma_cong_mul(n, si as int, t as int, si as int, s as int * k);
    assert(si as int * (s as int * k) == (si as int * s) * k) by (nonlinear_arith);
    lemma_f_inv_mul(s, n);
    lemma_cong_mul(n, si as int * s, k as int, 1, k as int);
    assert(1int * k == k) by (nonlinear_arith);

    // both sides are reduced residues, so the congruence is an equality
    lemma_f_add_cong(u1, f_mul(u2, d, n), n);
    vstd::arithmetic::div_mod::lemma_small_mod(k, n);
    lemma_cong_unique(n, f_add(u1, f_mul(u2, d, n), n), k);
}

} // verus!
