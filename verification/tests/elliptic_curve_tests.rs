use ecc::{EllipticCurve, Point};
use num_bigint::BigUint;

fn toy_curve() -> EllipticCurve {
    // y^2 = x^3 + 2x + 2 mod 17, subgroup order 19
    EllipticCurve::new(
        BigUint::from(2u32),
        BigUint::from(2u32),
        BigUint::from(17u32),
    )
}

#[test]
fn test_ec_point_addition() {
    let ec = toy_curve();

    // (6,3) + (5,1) = (10,6)
    let p1 = Point::Coor(BigUint::from(6u32), BigUint::from(3u32));
    let p2 = Point::Coor(BigUint::from(5u32), BigUint::from(1u32));
    let pr = Point::Coor(BigUint::from(10u32), BigUint::from(6u32));

    let res = ec.add(&p1, &p2);
    assert_eq!(res, pr);

    // addition in an abelian group is commutative
    let res = ec.add(&p2, &p1);
    assert_eq!(res, pr);
}

#[test]
fn test_ec_point_addition_identity() {
    let ec = toy_curve();

    let p1 = Point::Coor(BigUint::from(6u32), BigUint::from(3u32));
    let p2 = Point::Identity;
    let pr = p1.clone();

    let res = ec.add(&p1, &p2);
    assert_eq!(res, pr);

    let res = ec.add(&p2, &p1);
    assert_eq!(res, pr);
}

#[test]
fn test_ec_point_addition_reflected_in_x() {
    let ec = toy_curve();

    // (5,16) + (5,1) = Point::Identity
    let p1 = Point::Coor(BigUint::from(5u32), BigUint::from(16u32));
    let p2 = Point::Coor(BigUint::from(5u32), BigUint::from(1u32));
    let pr = Point::Identity;

    let res = ec.add(&p1, &p2);
    assert_eq!(res, pr);

    let res = ec.add(&p2, &p1);
    assert_eq!(res, pr);
}

#[test]
fn test_ec_point_doubling() {
    let ec = toy_curve();

    // (5,1) + (5,1) = 2 (5,1) = (6,3)
    let p1 = Point::Coor(BigUint::from(5u32), BigUint::from(1u32));
    let pr = Point::Coor(BigUint::from(6u32), BigUint::from(3u32));

    let res = ec.double(&p1);
    assert_eq!(res, pr);
}

#[test]
fn test_ec_point_doubling_identity() {
    let ec = toy_curve();

    // I + I = 2 I = I
    let p1 = Point::Identity;
    let pr = Point::Identity;

    let res = ec.double(&p1);
    assert_eq!(res, pr);
}

#[test]
fn test_bits() {
    let a = BigUint::from(2u32);
    assert!(!a.bit(0));
    assert!(a.bit(1));
}

#[test]
fn test_ec_point_scalar_multiplication() {
    // every point of this curve generates the whole group of order 19,
    // so 19 * A = I for any point A on the curve
    let ec = toy_curve();

    let c = Point::Coor(BigUint::from(5u32), BigUint::from(1u32));

    // 2 (5,1) = (6,3)
    let pr = Point::Coor(BigUint::from(6u32), BigUint::from(3u32));
    let res = ec.scalar_mult(&c, &BigUint::from(2u32));
    assert_eq!(res, pr);

    // 10 (5,1) = (7,11)
    let pr = Point::Coor(BigUint::from(7u32), BigUint::from(11u32));
    let res = ec.scalar_mult(&c, &BigUint::from(10u32));
    assert_eq!(res, pr);

    // 16 (5,1) = (10,11)
    let pr = Point::Coor(BigUint::from(10u32), BigUint::from(11u32));
    let res = ec.scalar_mult(&c, &BigUint::from(16u32));
    assert_eq!(res, pr);

    // 17 (5,1) = (6,14)
    let pr = Point::Coor(BigUint::from(6u32), BigUint::from(14u32));
    let res = ec.scalar_mult(&c, &BigUint::from(17u32));
    assert_eq!(res, pr);

    // 18 (5,1) = (5,16)
    let pr = Point::Coor(BigUint::from(5u32), BigUint::from(16u32));
    let res = ec.scalar_mult(&c, &BigUint::from(18u32));
    assert_eq!(res, pr);

    // 19 (5,1) = I
    let pr = Point::Identity;
    let res = ec.scalar_mult(&c, &BigUint::from(19u32));
    assert_eq!(res, pr);
}

#[test]
fn test_is_on_curve() {
    let ec = toy_curve();

    assert!(ec.is_on_curve(&Point::Coor(BigUint::from(5u32), BigUint::from(1u32))));
    assert!(ec.is_on_curve(&Point::Coor(BigUint::from(6u32), BigUint::from(3u32))));
    assert!(ec.is_on_curve(&Point::Identity));
    assert!(!ec.is_on_curve(&Point::Coor(BigUint::from(5u32), BigUint::from(2u32))));
}

#[test]
fn test_add_or_double_dispatch() {
    let ec = toy_curve();

    let g = Point::Coor(BigUint::from(5u32), BigUint::from(1u32));
    let g2 = Point::Coor(BigUint::from(6u32), BigUint::from(3u32));

    // equal operands are doubled, distinct ones added
    assert_eq!(ec.add_or_double(&g, &g), ec.double(&g));
    assert_eq!(ec.add_or_double(&g2, &g), ec.add(&g2, &g));
}

#[test]
fn test_doubling_order_two_point() {
    // y^2 = x^3 + 16x mod 17 contains (0,0), whose tangent is vertical:
    // doubling it yields the identity
    let ec = EllipticCurve::new(
        BigUint::from(16u32),
        BigUint::from(0u32),
        BigUint::from(17u32),
    );
    let p = Point::Coor(BigUint::from(0u32), BigUint::from(0u32));

    assert!(ec.is_on_curve(&p));
    assert_eq!(ec.double(&p), Point::Identity);
}

#[test]
fn test_scalar_multiplication_all_points_on_curve() {
    // every multiple of the generator lands on the curve
    let ec = toy_curve();
    let g = Point::Coor(BigUint::from(5u32), BigUint::from(1u32));

    for k in 1u32..=19u32 {
        let res = ec.scalar_mult(&g, &BigUint::from(k));
        assert!(ec.is_on_curve(&res));
    }
}

#[test]
fn test_chord_and_tangent_results_on_curve() {
    let ec = toy_curve();
    let p1 = Point::Coor(BigUint::from(6u32), BigUint::from(3u32));
    let p2 = Point::Coor(BigUint::from(5u32), BigUint::from(1u32));

    let sum = ec.add(&p1, &p2);
    assert!(ec.is_on_curve(&sum));

    let doubled = ec.double(&p2);
    assert!(ec.is_on_curve(&doubled));
}
