use linalg::error::LinalgError;
use linalg::vector::{cross_product, Vector};

#[test]
fn test_vector_addition() {
    let mut u = Vector::from([2i64, 3]);
    let v = Vector::from([5i64, 7]);
    u.add(&v);
    assert_eq!(u, Vector::from([7i64, 10]));
}

#[test]
fn test_vector_subtraction() {
    let mut u = Vector::from([2i64, 3]);
    let v = Vector::from([5i64, 7]);
    u.sub(&v);
    assert_eq!(u, Vector::from([-3i64, -4]));
}

#[test]
fn test_vector_scalar_multiplication() {
    let mut u = Vector::from([2i64, 3]);
    u.scl(2);
    assert_eq!(u, Vector::from([4i64, 6]));
}

#[test]
fn test02() {
    let e1 = Vector::from([1i64, 0]);
    let e2 = Vector::from([0i64, 1]);
    let res = Vector::linear_combination(&[e1, e2], &[3, 4]).unwrap();
    let ans = Vector::from([3i64, 4]);
    assert_eq!(res, ans);
}

#[test]
fn test03() {
    let e1 = Vector::from([1i64, 0, 0, 0]);
    let e2 = Vector::from([0i64, 1, 0, 0]);
    let e3 = Vector::from([0i64, 0, 1, 0]);
    let e4 = Vector::from([0i64, 0, 0, 1]);
    let res = Vector::linear_combination(&[e1, e2, e3, e4], &[1, 2, 3, 4]).unwrap();
    let ans = Vector::from([1i64, 2, 3, 4]);
    assert_eq!(res, ans);
}

#[test]
fn test04() {
    let e1 = Vector::from([1i64, 1, 1]);
    let e2 = Vector::from([2i64, 2, 2]);
    let res = Vector::linear_combination(&[e1, e2], &[1, 1]).unwrap();
    let ans = Vector::from([3i64, 3, 3]);
    assert_eq!(res, ans);
}

#[test]
fn linear_combination_rejects_unequal_lengths() {
    let e1 = Vector::from([1i64, 0, 0]);
    let e2 = Vector::from([0i64, 1, 0]);
    let res = Vector::linear_combination(&[e1, e2], &[1]);
    assert_eq!(res, Err(LinalgError::DimensionMismatch));
}

#[test]
fn linear_combination_of_nothing_is_zero() {
    let us: [Vector<i64, 3>; 0] = [];
    let res = Vector::linear_combination(&us, &[]).unwrap();
    assert_eq!(res, Vector::from([0i64, 0, 0]));
}

#[test]
fn main_test_dot() {
    let u = Vector::from([0i64, 0]);
    let v = Vector::from([1i64, 1]);
    assert_eq!(u.dot(&v), 0);

    let u = Vector::from([1i64, 1]);
    let v = Vector::from([1i64, 1]);
    assert_eq!(u.dot(&v), 2);

    let u = Vector::from([-1i64, 6]);
    let v = Vector::from([3i64, 2]);
    assert_eq!(u.dot(&v), 9);
}

#[test]
fn ex03_test_dot() {
    let u = Vector::from([0i64, 0]);
    let v = Vector::from([1i64, 1]);
    assert_eq!(u.dot(&v), 0);

    let u = Vector::from([1i64, 1]);
    let v = Vector::from([1i64, 1]);
    assert_eq!(u.dot(&v), 2);

    let u = Vector::from([-1i64, 6]);
    let v = Vector::from([3i64, 2]);
    assert_eq!(u.dot(&v), 9);
}

#[test]
fn test_dot_with_negative_numbers() {
    let u = Vector::from([-1i64, -1]);
    let v = Vector::from([-1i64, -1]);
    assert_eq!(u.dot(&v), 2);

    let u = Vector::from([-1i64, 1]);
    let v = Vector::from([1i64, -1]);
    assert_eq!(u.dot(&v), -2);
}

#[test]
fn test_dot_with_zeros() {
    let u = Vector::from([0i64, 0]);
    let v = Vector::from([0i64, 0]);
    assert_eq!(u.dot(&v), 0);

    let u = Vector::from([0i64, 1]);
    let v = Vector::from([1i64, 0]);
    assert_eq!(u.dot(&v), 0);
}

#[test]
fn dot_is_the_same_both_ways() {
    let u = Vector::from([3i64, -7, 11, 2]);
    let v = Vector::from([-5i64, 4, 6, 9]);
    assert_eq!(u.dot(&v), v.dot(&u));
    assert_eq!(u.dot(&v), -15 - 28 + 66 + 18);
}

#[test]
fn main_test_cross() {
    let u = Vector::from([0i64, 0, 1]);
    let v = Vector::from([1i64, 0, 0]);
    assert_eq!(cross_product(&u, &v), Vector::from([0i64, 1, 0]));

    let u = Vector::from([1i64, 2, 3]);
    let v = Vector::from([4i64, 5, 6]);
    assert_eq!(cross_product(&u, &v), Vector::from([-3i64, 6, -3]));

    let u = Vector::from([4i64, 2, -3]);
    let v = Vector::from([-2i64, -5, 16]);
    assert_eq!(cross_product(&u, &v), Vector::from([17i64, -58, -16]));
}

#[test]
fn ex06_test_cross() {
    let u = Vector::from([0i64, 0, 1]);
    let v = Vector::from([1i64, 0, 0]);
    assert_eq!(cross_product(&u, &v), Vector::from([0i64, 1, 0]));

    let u = Vector::from([1i64, 2, 3]);
    let v = Vector::from([4i64, 5, 6]);
    assert_eq!(cross_product(&u, &v), Vector::from([-3i64, 6, -3]));

    let u = Vector::from([4i64, 2, -3]);
    let v = Vector::from([-2i64, -5, 16]);
    assert_eq!(cross_product(&u, &v), Vector::from([17i64, -58, -16]));
}

#[test]
fn norms_of_small_vectors() {
    let mut u = Vector::from([0i64, 0, 0]);
    assert_eq!(u.norm_1(), 0);
    assert_eq!(u.norm(), 0);
    assert_eq!(u.norm_inf(), 0);

    let mut u = Vector::from([-1i64, 2, -3]);
    assert_eq!(u.norm_1(), 6);
    // the integer square root of 14
    assert_eq!(u.norm(), 3);
    assert_eq!(u.norm_inf(), 3);

    let mut u = Vector::from([3i64, -4]);
    assert_eq!(u.norm_1(), 7);
    assert_eq!(u.norm(), 5);
    assert_eq!(u.abs(), 5);
    assert_eq!(u.norm_inf(), 4);

    let mut u = Vector::from([1i64, 2, 3, 4, 5]);
    assert_eq!(u.norm_1(), 15);
    assert_eq!(u.norm(), 7);
    assert_eq!(u.norm_inf(), 5);
}

#[test]
fn norms_agree_on_one_nonzero_element() {
    let mut u = Vector::from([0i64, -9, 0]);
    assert_eq!(u.norm_1(), 9);
    assert_eq!(u.norm(), 9);
    assert_eq!(u.norm_inf(), 9);
    let mut u = Vector::from([5i64]);
    assert_eq!(u.norm_1(), 5);
    assert_eq!(u.norm(), 5);
    assert_eq!(u.norm_inf(), 5);
}

#[test]
fn normalize_divides_by_the_norm() {
    let u = Vector::from([6i64, -8]);
    assert_eq!(u.normalize(), Vector::from([0i64, 0]));
    let u = Vector::from([0i64, 7]);
    assert_eq!(u.normalize(), Vector::from([0i64, 1]));
    let z = Vector::from([0i64, 0]);
    assert_eq!(z.normalize(), Vector::from([0i64, 0]));
}

#[test]
fn add_then_sub_gives_back_the_vector() {
    let u = Vector::from([i64::MAX, -4, 17]);
    let v = Vector::from([1i64, i64::MIN, -3]);
    let w = u.plus(&v);
    assert_eq!(w, Vector::from([i64::MIN, i64::MAX - 3, 14]));
    assert_eq!(w.minus(&v), u);
}

#[test]
fn value_and_in_place_forms_agree() {
    let mut u = Vector::from([2i64, 3, -1]);
    let v = Vector::from([5i64, 7, 4]);
    let sum = u.plus(&v);
    u.add(&v);
    assert_eq!(u, sum);
    let scaled = u.scaled(-3);
    u.scl(-3);
    assert_eq!(u, scaled);
    assert_eq!(scaled, Vector::from([-21i64, -30, -9]));
    assert_eq!(scaled.divided(3), Vector::from([-7i64, -10, -3]));
}

#[test]
fn element_access_checks_the_index() {
    let u = Vector::from([4i64, 5, 6]);
    assert_eq!(u.at(2), Ok(6));
    assert_eq!(u.at(3), Err(LinalgError::IndexOutOfRange));
    assert_eq!(u.as_slice(), &[4i64, 5, 6][..]);
    assert_eq!(u.as_vec(), vec![4i64, 5, 6]);
}

#[test]
fn from_vec_checks_the_length() {
    let u: Result<Vector<i64, 3>, LinalgError> = Vector::from_vec(vec![1, 2, 3]);
    assert_eq!(u, Ok(Vector::from([1i64, 2, 3])));
    let w: Result<Vector<i64, 3>, LinalgError> = Vector::from_vec(vec![1, 2]);
    assert_eq!(w, Err(LinalgError::DimensionMismatch));
}

#[test]
fn test_norm_zero_vector() {
    let mut u = Vector::from([0i64, 0, 0]);
    assert_eq!(u.norm_1(), 0);
    assert_eq!(u.norm(), 0);
    assert_eq!(u.norm_inf(), 0);
}

#[test]
fn test_norm_single_element_vector() {
    let mut u = Vector::from([5i64]);
    assert_eq!(u.norm_1(), 5);
    assert_eq!(u.norm(), 5);
    assert_eq!(u.norm_inf(), 5);
}
