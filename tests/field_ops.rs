use poseidon::field::{gcd_u64, Field, FieldError};

#[test]
fn add_wraps_at_modulus() {
    let f = Field::new(97);
    assert_eq!(f.add(90, 10), 3);
    assert_eq!(f.add(0, 0), 0);
}

#[test]
fn add_near_u64_limit() {
    let f = Field::new(18446744073709551557);
    assert_eq!(f.add(18446744073709551556, 18446744073709551556), 18446744073709551555);
}

#[test]
fn sub_and_neg() {
    let f = Field::new(97);
    assert_eq!(f.sub(3, 5), 95);
    assert_eq!(f.sub(5, 3), 2);
    assert_eq!(f.neg(0), 0);
    assert_eq!(f.neg(1), 96);
}

#[test]
fn add_of_negation_is_zero() {
    let f = Field::new(97);
    for a in 0..97u64 {
        assert_eq!(f.add(a, f.sub(0, a)), 0);
        assert_eq!(f.add(a, f.neg(a)), 0);
    }
}

#[test]
fn mul_uses_wide_product() {
    let f = Field::new(18446744069414584321);
    // (p - 1)^2 = 1 mod p
    assert_eq!(f.mul(18446744069414584320, 18446744069414584320), 1);
    let g = Field::new(97);
    assert_eq!(g.mul(10, 10), 3);
}

#[test]
fn pow_by_squaring() {
    let f = Field::new(97);
    assert_eq!(f.pow(0, 0), 1);
    assert_eq!(f.pow(5, 0), 1);
    assert_eq!(f.pow(3, 5), 49);
    assert_eq!(f.pow(2, 96), 1);
    assert_eq!(f.pow(0, 7), 0);
}

#[test]
fn invert_gives_inverse_for_every_nonzero_element() {
    let f = Field::new(97);
    for a in 1..97u64 {
        let x = f.invert(a).unwrap();
        assert_eq!(f.mul(a, x), 1);
    }
    let g = Field::new(18446744073709551557);
    let x = g.invert(123456789).unwrap();
    assert_eq!(g.mul(123456789, x), 1);
}

#[test]
fn invert_zero_is_division_by_zero() {
    let f = Field::new(97);
    assert_eq!(f.invert(0), Err(FieldError::DivisionByZero));
}

#[test]
fn invert_shared_factor_is_not_invertible() {
    let f = Field::new(9);
    assert_eq!(f.invert(3), Err(FieldError::NotInvertible));
    assert_eq!(f.invert(2), Ok(5));
}

#[test]
fn gcd_values() {
    assert_eq!(gcd_u64(5, 96), 1);
    assert_eq!(gcd_u64(12, 18), 6);
    assert_eq!(gcd_u64(7, 0), 7);
    assert_eq!(gcd_u64(0, 0), 0);
}
