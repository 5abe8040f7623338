use ecc::FiniteField;
use num_bigint::BigUint;

#[test]
fn test_add_1() {
    let c = BigUint::from(4u32);
    let d = BigUint::from(10u32);
    let p = BigUint::from(11u32);

    let r = FiniteField::add(&c, &d, &p);

    assert_eq!(r, BigUint::from(3u32));
}

#[test]
fn test_add_2() {
    let c = BigUint::from(4u32);
    let d = BigUint::from(10u32);
    let p = BigUint::from(31u32);

    let r = FiniteField::add(&c, &d, &p);

    assert_eq!(r, BigUint::from(14u32));
}

#[test]
fn test_mult_1() {
    let c = BigUint::from(4u32);
    let d = BigUint::from(10u32);
    let p = BigUint::from(11u32);

    let r = FiniteField::mult(&c, &d, &p);

    assert_eq!(r, BigUint::from(7u32));
}

#[test]
fn test_mult_2() {
    let c = BigUint::from(4u32);
    let d = BigUint::from(10u32);
    let p = BigUint::from(51u32);

    let r = FiniteField::mult(&c, &d, &p);

    assert_eq!(r, BigUint::from(40u32));
}

#[test]
fn test_inv_addition_1() {
    let c = BigUint::from(4u32);
    let p = BigUint::from(51u32);

    let r = FiniteField::inv_addition(&c, &p);

    assert_eq!(r, BigUint::from(47u32));
}

#[test]
#[should_panic]
fn test_inv_addition_2() {
    let c = BigUint::from(52u32);
    let p = BigUint::from(51u32);

    FiniteField::inv_addition(&c, &p);
}

#[test]
fn test_inv_addition_identity() {
    let c = BigUint::from(4u32);
    let p = BigUint::from(51u32);

    let c_inv = FiniteField::inv_addition(&c, &p);

    assert_eq!(c_inv, BigUint::from(47u32));
    assert_eq!(FiniteField::add(&c, &c_inv, &p), BigUint::from(0u32))
}

#[test]
fn test_substract() {
    let c = BigUint::from(4u32);
    let p = BigUint::from(51u32);

    assert_eq!(FiniteField::substract(&c, &c, &p), BigUint::from(0u32))
}

#[test]
fn test_inv_multiplication_identity() {
    let c = BigUint::from(4u32);
    let p = BigUint::from(11u32);

    let c_inv = FiniteField::inv_multiplication(&c, &p);

    // 4 * 3 mod 11 = 12 mod 11 = 1
    assert_eq!(c_inv, BigUint::from(3u32));
    assert_eq!(FiniteField::mult(&c, &c_inv, &p), BigUint::from(1u32))
}

#[test]
fn test_divide() {
    let c = BigUint::from(4u32);
    let p = BigUint::from(11u32);

    assert_eq!(FiniteField::divide(&c, &c, &p), BigUint::from(1u32))
}

#[test]
fn test_inv_addition_of_zero() {
    // the additive inverse of 0 is normalized to 0, not p
    let c = BigUint::from(0u32);
    let p = BigUint::from(51u32);

    let c_inv = FiniteField::inv_addition(&c, &p);

    assert_eq!(c_inv, BigUint::from(0u32));
    assert_eq!(FiniteField::add(&c, &c_inv, &p), BigUint::from(0u32));
}

#[test]
fn test_substract_wraps() {
    // 3 - 7 mod 11 = 7
    let c = BigUint::from(3u32);
    let d = BigUint::from(7u32);
    let p = BigUint::from(11u32);

    assert_eq!(FiniteField::substract(&c, &d, &p), BigUint::from(7u32));
}

#[test]
fn test_inv_multiplication_larger_prime() {
    // 7^(101-2) mod 101 is the inverse of 7: 7 * 29 = 203 = 2*101 + 1
    let c = BigUint::from(7u32);
    let p = BigUint::from(101u32);

    let c_inv = FiniteField::inv_multiplication(&c, &p);

    assert_eq!(c_inv, BigUint::from(29u32));
    assert_eq!(FiniteField::mult(&c, &c_inv, &p), BigUint::from(1u32));
}
