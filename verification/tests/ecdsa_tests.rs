use ecc::ecdsa::{ECDSA, EcdsaError};
use ecc::{EllipticCurve, Point};
use num_bigint::BigUint;

fn toy_ecdsa() -> ECDSA {
    let elliptic_curve = EllipticCurve::new(
        BigUint::from(2u32),
        BigUint::from(2u32),
        BigUint::from(17u32),
    );

    let a_gen = Point::Coor(BigUint::from(5u32), BigUint::from(1u32));

    let q_order = BigUint::from(19u32);

    ECDSA::new(elliptic_curve, a_gen, q_order)
}

fn secp256k1() -> (ECDSA, BigUint) {
    let p = BigUint::parse_bytes(
        b"FFFFFFFFFFFFFFFFFFFFFFFFFFFFFFFFFFFFFFFFFFFFFFFFFFFFFFFEFFFFFC2F",
        16,
    )
    .unwrap();
    let a = BigUint::from(0u32);
    let b = BigUint::from(7u32);
    let gx = BigUint::parse_bytes(
        b"79BE667EF9DCBBAC55A06295CE870B07029BFCDB2DCE28D959F2815B16F81798",
        16,
    )
    .unwrap();
    let gy = BigUint::parse_bytes(
        b"483ADA7726A3C4655DA4FBFC0E1108A8FD17B448A68554199C47D08FFB10D4B8",
        16,
    )
    .unwrap();
    let n = BigUint::parse_bytes(
        b"FFFFFFFFFFFFFFFFFFFFFFFFFFFFFFFEBAAEDCE6AF48A03BBFD25E8CD0364141",
        16,
    )
    .unwrap();

    let elliptic_curve = EllipticCurve::new(a, b, p);
    let a_gen = Point::Coor(gx, gy);
    (ECDSA::new(elliptic_curve, a_gen, n.clone()), n)
}

#[test]
fn test_sign_verify() {
    let ecdsa = toy_ecdsa();

    let priv_key = BigUint::from(7u32);
    let pub_key = ecdsa.generate_pub_key(&priv_key);

    let hash = BigUint::from(10u32);
    let k_random = BigUint::from(18u32);

    let message = "Bob -> 1 BTC -> Alice";
    let hash = ecdsa.generate_hash_less_than(message, &BigUint::from(19u32));

    let signature = ecdsa.sign(&hash, &priv_key, &k_random).unwrap();

    println!("signature: {:?}", signature);

    let verify_result = ecdsa.verify(&hash, &pub_key, &signature);

    assert!(verify_result, "Verification result is false");
}

#[test]
fn test_sign_verify_tampered_r() {
    // signing with d = 7, k = 18 yields r, s in [1, 19); the genuine
    // signature verifies and r + 1 does not
    let ecdsa = toy_ecdsa();

    let priv_key = BigUint::from(7u32);
    let pub_key = ecdsa.generate_pub_key(&priv_key);

    let message = "Bob -> 1 BTC -> Alice";
    let hash = ecdsa.generate_hash_less_than(message, &BigUint::from(19u32));

    let (r, s) = ecdsa.sign(&hash, &priv_key, &k_random_18()).unwrap();
    assert!(BigUint::from(1u32) <= r && r < BigUint::from(19u32));
    assert!(BigUint::from(1u32) <= s && s < BigUint::from(19u32));

    assert!(ecdsa.verify(&hash, &pub_key, &(r.clone(), s.clone())));

    // on this 19-element group, r + 1 happens to collide with another
    // x-coordinate that verifies; r + 2 and s + 1 genuinely break it
    let tampered = (&r + BigUint::from(2u32), s.clone());
    assert!(!ecdsa.verify(&hash, &pub_key, &tampered));
    let tampered = (r, &s + BigUint::from(1u32));
    assert!(!ecdsa.verify(&hash, &pub_key, &tampered));
}

fn k_random_18() -> BigUint {
    BigUint::from(18u32)
}

#[test]
fn test_sign_rejects_identity_nonce() {
    // with the subgroup order overstated as 38, the nonce 19 stays below
    // it yet maps the generator of order 19 to the identity
    let elliptic_curve = EllipticCurve::new(
        BigUint::from(2u32),
        BigUint::from(2u32),
        BigUint::from(17u32),
    );
    let a_gen = Point::Coor(BigUint::from(5u32), BigUint::from(1u32));
    let ecdsa = ECDSA::new(elliptic_curve, a_gen, BigUint::from(38u32));

    let hash = BigUint::from(10u32);
    let priv_key = BigUint::from(7u32);
    let k_random = BigUint::from(19u32);

    let result = ecdsa.sign(&hash, &priv_key, &k_random);
    assert_eq!(result, Err(EcdsaError::InvalidNonce));
}

#[test]
fn test_verify_rejects_wrong_public_key() {
    let ecdsa = toy_ecdsa();

    let priv_key = BigUint::from(7u32);
    let pub_key = ecdsa.generate_pub_key(&priv_key);

    let message = "Bob -> 1 BTC -> Alice";
    let hash = ecdsa.generate_hash_less_than(message, &BigUint::from(19u32));
    let signature = ecdsa.sign(&hash, &priv_key, &BigUint::from(18u32)).unwrap();

    assert!(ecdsa.verify(&hash, &pub_key, &signature));

    let other_pub = ecdsa.generate_pub_key(&BigUint::from(3u32));
    assert_eq!(other_pub, Point::Coor(BigUint::from(10u32), BigUint::from(6u32)));
    assert!(!ecdsa.verify(&hash, &other_pub, &signature));
}

#[test]
fn test_generated_key_pair() {
    let ecdsa = toy_ecdsa();

    let (priv_key, pub_key) = ecdsa.generate_key_pair();
    assert!(BigUint::from(1u32) <= priv_key && priv_key < BigUint::from(19u32));
    assert_eq!(pub_key, ecdsa.generate_pub_key(&priv_key));

    let ec = EllipticCurve::new(
        BigUint::from(2u32),
        BigUint::from(2u32),
        BigUint::from(17u32),
    );
    assert!(ec.is_on_curve(&pub_key));
}

#[test]
fn test_hash_less_than_range_and_value() {
    let ecdsa = toy_ecdsa();

    // SHA-256("hello") read as a big-endian number, reduced by
    // (h mod 18) + 1; the digest constant is the published test vector
    let h = BigUint::parse_bytes(
        b"2cf24dba5fb0a30e26e83b2ac5b9e29e1b161e5c1fa7425e73043362938b9824",
        16,
    )
    .unwrap();
    let expected = h % BigUint::from(18u32) + BigUint::from(1u32);

    let got = ecdsa.generate_hash_less_than("hello", &BigUint::from(19u32));
    assert_eq!(got, expected);
    assert!(BigUint::from(1u32) <= got && got < BigUint::from(19u32));
}

#[test]
fn test_secp256k1_group_order() {
    // n * G = Identity on secp256k1
    let (ecdsa, n) = secp256k1();
    let pub_of_n = ecdsa.generate_pub_key(&n);
    assert_eq!(pub_of_n, Point::Identity);
}

#[test]
fn test_secp256k1_sign_verify_and_bit_flips() {
    let (ecdsa, _n) = secp256k1();

    let priv_key = BigUint::from(123456789012345678u64);
    let pub_key = ecdsa.generate_pub_key(&priv_key);

    let message = "Bob -> 1 BTC -> Alice";
    let hash = ecdsa.generate_hash_less_than(
        message,
        &BigUint::parse_bytes(
            b"FFFFFFFFFFFFFFFFFFFFFFFFFFFFFFFEBAAEDCE6AF48A03BBFD25E8CD0364141",
            16,
        )
        .unwrap(),
    );
    let k_random = BigUint::from(987654321098765432u64);

    let (r, s) = ecdsa.sign(&hash, &priv_key, &k_random).unwrap();
    assert!(ecdsa.verify(&hash, &pub_key, &(r.clone(), s.clone())));

    // flipping a bit of r or of s breaks the signature
    let one = BigUint::from(1u32);
    let high = BigUint::from(1u32) << 128;
    assert!(!ecdsa.verify(&hash, &pub_key, &(&r ^ &one, s.clone())));
    assert!(!ecdsa.verify(&hash, &pub_key, &(&r ^ &high, s.clone())));
    assert!(!ecdsa.verify(&hash, &pub_key, &(r.clone(), &s ^ &one)));
    assert!(!ecdsa.verify(&hash, &pub_key, &(r.clone(), &s ^ &high)));
}
