use linalg::matrix::Matrix;
use linalg::vector::Vector;

#[test]
fn test_matrix_addition() {
    let mut u = Matrix::from([[1i64, 2], [3, 4]]);
    let v = Matrix::from([[7i64, 4], [-2, 2]]);
    u.add(&v);
    assert_eq!(u, Matrix::from([[8i64, 6], [1, 6]]));
}

#[test]
fn test_matrix_subtraction() {
    let mut u = Matrix::from([[1i64, 2], [3, 4]]);
    let v = Matrix::from([[7i64, 4], [-2, 2]]);
    u.sub(&v);
    assert_eq!(u, Matrix::from([[-6i64, -2], [5, 2]]));
}

#[test]
fn test_matrix_scalar_multiplication() {
    let mut u = Matrix::from([[1i64, 2], [3, 4]]);
    u.scl(2);
    assert_eq!(u, Matrix::from([[2i64, 4], [6, 8]]));
}

#[test]
fn matrix_value_forms_match_in_place_forms() {
    let u = Matrix::from([[1i64, 2, 3], [4, 5, 6]]);
    let v = Matrix::from([[6i64, 5, 4], [3, 2, 1]]);
    assert_eq!(u.plus(&v), Matrix::from([[7i64, 7, 7], [7, 7, 7]]));
    assert_eq!(u.minus(&v), Matrix::from([[-5i64, -3, -1], [1, 3, 5]]));
    assert_eq!(u.scaled(-1), Matrix::from([[-1i64, -2, -3], [-4, -5, -6]]));
    let mut w = u.clone();
    w.add(&v);
    w.sub(&v);
    assert_eq!(w, u);
}

#[test]
fn test_mul_vec_identity() {
    let mut u = Matrix::from([[1i64, 0], [0, 1]]);
    let v = Vector::from([4i64, 2]);
    assert_eq!(u.mul_vec(&v), Vector::from([4i64, 2]));
}

#[test]
fn test_mul_vec_scaling() {
    let mut u = Matrix::from([[2i64, 0], [0, 2]]);
    let v = Vector::from([4i64, 2]);
    assert_eq!(u.mul_vec(&v), Vector::from([8i64, 4]));
}

#[test]
fn test_mul_vec_mixed() {
    let mut u = Matrix::from([[2i64, -2], [-2, 2]]);
    let v = Vector::from([4i64, 2]);
    assert_eq!(u.mul_vec(&v), Vector::from([4i64, -4]));
}

#[test]
fn mul_vec_of_a_wide_matrix() {
    let mut u = Matrix::from([[1i64, 2, 3]]);
    let v = Vector::from([4i64, 5, 6]);
    assert_eq!(u.mul_vec(&v), Vector::from([32i64]));
}

#[test]
fn test_mul_mat_identity() {
    let mut u = Matrix::from([[1i64, 0], [0, 1]]);
    let v = Matrix::from([[1i64, 0], [0, 1]]);
    assert_eq!(u.mul_mat(&v), Matrix::from([[1i64, 0], [0, 1]]));
}

#[test]
fn test_mul_mat_simple() {
    let mut u = Matrix::from([[1i64, 0], [0, 1]]);
    let v = Matrix::from([[2i64, 1], [4, 2]]);
    assert_eq!(u.mul_mat(&v), Matrix::from([[2i64, 1], [4, 2]]));
}

#[test]
fn test_mul_mat_complex() {
    let mut u = Matrix::from([[3i64, -5], [6, 8]]);
    let v = Matrix::from([[2i64, 1], [4, 2]]);
    assert_eq!(u.mul_mat(&v), Matrix::from([[-14i64, -7], [44, 22]]));
}

#[test]
fn mul_mat_of_unequal_shapes() {
    let mut u = Matrix::from([[1i64, 2, 3], [4, 5, 6]]);
    let v = Matrix::from([[1i64], [0], [-1]]);
    assert_eq!(u.mul_mat(&v), Matrix::from([[-2i64], [-2]]));
}

#[test]
fn test_mul() {
    let mut u = Matrix::from([[1i64, 0], [0, 1]]);
    let v = Vector::from([4i64, 2]);
    assert_eq!(u.mul_vec(&v), Vector::from([4i64, 2]));

    let mut u = Matrix::from([[2i64, 0], [0, 2]]);
    let v = Vector::from([4i64, 2]);
    assert_eq!(u.mul_vec(&v), Vector::from([8i64, 4]));

    let mut u = Matrix::from([[2i64, -2], [-2, 2]]);
    let v = Vector::from([4i64, 2]);
    assert_eq!(u.mul_vec(&v), Vector::from([4i64, -4]));

    let mut u = Matrix::from([[1i64, 0], [0, 1]]);
    let v = Matrix::from([[1i64, 0], [0, 1]]);
    assert_eq!(u.mul_mat(&v), Matrix::from([[1i64, 0], [0, 1]]));

    let mut u = Matrix::from([[1i64, 0], [0, 1]]);
    let v = Matrix::from([[2i64, 1], [4, 2]]);
    assert_eq!(u.mul_mat(&v), Matrix::from([[2i64, 1], [4, 2]]));

    let mut u = Matrix::from([[3i64, -5], [6, 8]]);
    let v = Matrix::from([[2i64, 1], [4, 2]]);
    assert_eq!(u.mul_mat(&v), Matrix::from([[-14i64, -7], [44, 22]]));
}

#[test]
fn test_trace_1() {
    let mut u = Matrix::from([[1i64, 0], [0, 1]]);
    assert_eq!(u.trace(), 2);
}

#[test]
fn test_trace_2() {
    let mut u = Matrix::from([[2i64, -5, 0], [4, 3, 7], [-2, 3, 4]]);
    assert_eq!(u.trace(), 9);
}

#[test]
fn test_trace_3() {
    let mut u = Matrix::from([[-2i64, -8, 4], [1, -23, 4], [0, 6, 4]]);
    assert_eq!(u.trace(), -21);
}

#[test]
fn test_trace_4() {
    let mut u = Matrix::from([[5i64, 1, 2], [3, 6, 4], [7, 8, 9]]);
    assert_eq!(u.trace(), 20);
}

#[test]
fn test_trace_5() {
    let mut u = Matrix::from([[0i64, 0], [0, 0]]);
    assert_eq!(u.trace(), 0);
}

#[test]
fn test_trace_6() {
    let mut u = Matrix::from([[1i64]]);
    assert_eq!(u.trace(), 1);
}

#[test]
fn test_trace_7() {
    let mut u = Matrix::from([[3i64, 2, 1, 4], [5, 6, 7, 8], [9, 10, 11, 12], [13, 14, 15, 16]]);
    assert_eq!(u.trace(), 36);
}

#[test]
fn test_trace() {
    let mut u = Matrix::from([[1i64, 0], [0, 1]]);
    assert_eq!(u.trace(), 2);
    let mut u = Matrix::from([[2i64, -5, 0], [4, 3, 7], [-2, 3, 4]]);
    assert_eq!(u.trace(), 9);
    let mut u = Matrix::from([[-2i64, -8, 4], [1, -23, 4], [0, 6, 4]]);
    assert_eq!(u.trace(), -21);
}

#[test]
fn test_transpose_1() {
    let mut u = Matrix::from([[1i64, 0], [0, 1]]);
    assert_eq!(u.transpose(), Matrix::from([[1i64, 0], [0, 1]]));
}

#[test]
fn test_transpose_2() {
    let mut u = Matrix::from([[2i64, -5, 0], [4, 3, 7], [-2, 3, 4]]);
    assert_eq!(u.transpose(), Matrix::from([[2i64, 4, -2], [-5, 3, 3], [0, 7, 4]]));
}

#[test]
fn test_transpose_3() {
    let mut u = Matrix::from([[-2i64, -8, 4], [1, -23, 4], [0, 6, 4]]);
    assert_eq!(u.transpose(), Matrix::from([[-2i64, 1, 0], [-8, -23, 6], [4, 4, 4]]));
}

#[test]
fn test_transpose_4() {
    let mut u = Matrix::from([[1i64, 2, 3], [4, 5, 6]]);
    assert_eq!(u.transpose(), Matrix::from([[1i64, 4], [2, 5], [3, 6]]));
}

#[test]
fn test_transpose_5() {
    let mut u = Matrix::from([[7i64, 8], [9, 10], [11, 12]]);
    assert_eq!(u.transpose(), Matrix::from([[7i64, 9, 11], [8, 10, 12]]));
}

#[test]
fn test_transpose_6() {
    let mut u = Matrix::from([[1i64]]);
    assert_eq!(u.transpose(), Matrix::from([[1i64]]));
}

#[test]
fn test_transpose_7() {
    let mut u = Matrix::from([[1i64, 2], [3, 4], [5, 6], [7, 8]]);
    assert_eq!(u.transpose(), Matrix::from([[1i64, 3, 5, 7], [2, 4, 6, 8]]));
}

#[test]
fn test_transpose() {
    let mut u = Matrix::from([[1i64, 2], [3, 4], [5, 6]]);
    assert_eq!(u.transpose(), Matrix::from([[1i64, 3, 5], [2, 4, 6]]));

    let mut u = Matrix::from([[1i64], [2], [3], [4]]);
    assert_eq!(u.transpose(), Matrix::from([[1i64, 2, 3, 4]]));
}

#[test]
fn transpose_twice_gives_back_the_matrix() {
    let mut u = Matrix::from([[1i64, -2, 3], [4, 5, -6]]);
    let mut t = u.transpose();
    assert_eq!(t.transpose(), u);
}

#[test]
fn identity_and_row_access() {
    let i3: Matrix<i64, 3, 3> = Matrix::identity();
    assert_eq!(i3, Matrix::from([[1i64, 0, 0], [0, 1, 0], [0, 0, 1]]));
    let u = Matrix::from([[1i64, 2], [3, 4], [5, 6]]);
    assert_eq!(u.as_vector(1), Vector::from([3i64, 4]));
    assert_eq!(u.as_vec(), vec![vec![1i64, 2], vec![3, 4], vec![5, 6]]);
}
