use linalg::scalar::Scalar;

#[test]
fn integer_arithmetic_wraps() {
    assert_eq!(Scalar::add(i64::MAX, 1), i64::MIN);
    assert_eq!(Scalar::sub(i64::MIN, 1), i64::MAX);
    assert_eq!(Scalar::mul(i64::MAX, 2), -2);
    assert_eq!(Scalar::neg(i64::MIN), i64::MIN);
    assert_eq!(Scalar::abs(-7i64), 7);
    assert_eq!(Scalar::abs(i64::MIN), i64::MAX);
    assert_eq!(Scalar::abs(i128::MIN), i128::MAX);
}

#[test]
fn integer_division_is_total() {
    assert_eq!(Scalar::div(7i64, 2), 3);
    assert_eq!(Scalar::div(-7i64, 2), -3);
    assert_eq!(Scalar::div(7i64, 0), 0);
    assert_eq!(Scalar::div(i64::MIN, -1), i64::MIN);
}

#[test]
fn integer_square_root_and_powers() {
    assert_eq!(Scalar::sqrt(0i64), 0);
    assert_eq!(Scalar::sqrt(15i64), 3);
    assert_eq!(Scalar::sqrt(16i64), 4);
    assert_eq!(Scalar::sqrt(i64::MAX), 3037000499);
    assert_eq!(Scalar::sqrt(-4i64), 0);
    assert_eq!(Scalar::powi(3i64, 4), 81);
    assert_eq!(Scalar::powi(-2i64, 0), 1);
    assert!(Scalar::less_than(-1i64, 0));
    assert!(Scalar::is_equal(5i64, 5));
}
