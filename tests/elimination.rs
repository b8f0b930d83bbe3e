use linalg::error::LinalgError;
use linalg::matrix::Matrix;

#[test]
fn test_determinant_1x1() {
    let mut matrix = Matrix::from([[1i64]]);
    assert_eq!(matrix.determinant(), 1);
}

#[test]
fn test_determinant_2x2() {
    let mut matrix = Matrix::from([[1i64, 2], [3, 4]]);
    assert_eq!(matrix.determinant(), -2);
}

#[test]
fn test_determinant_3x3() {
    let mut matrix = Matrix::from([[6i64, 1, 1], [4, -2, 5], [2, 8, 7]]);
    assert_eq!(matrix.determinant(), -306);
}

#[test]
fn test_determinant_4x4() {
    let mut matrix = Matrix::from([[1i64, 0, 2, -1], [3, 0, 0, 5], [2, 1, 4, -3], [1, 0, 5, 0]]);
    assert_eq!(matrix.determinant(), 30);
}

#[test]
fn test_determinant_zero_matrix() {
    let mut matrix = Matrix::from([[0i64, 0], [0, 0]]);
    assert_eq!(matrix.determinant(), 0);
}

#[test]
fn test_determinant_identity_matrix() {
    let mut matrix = Matrix::from([[1i64, 0, 0], [0, 1, 0], [0, 0, 1]]);
    assert_eq!(matrix.determinant(), 1);
}

#[test]
fn determinant_of_identity_is_one_for_each_size() {
    let mut i1: Matrix<i64, 1, 1> = Matrix::identity();
    let mut i2: Matrix<i64, 2, 2> = Matrix::identity();
    let mut i4: Matrix<i64, 4, 4> = Matrix::identity();
    let mut i6: Matrix<i64, 6, 6> = Matrix::identity();
    assert_eq!(i1.determinant(), 1);
    assert_eq!(i2.determinant(), 1);
    assert_eq!(i4.determinant(), 1);
    assert_eq!(i6.determinant(), 1);
}

#[test]
fn determinant_leaves_the_matrix_alone() {
    let mut matrix = Matrix::from([[2i64, 7], [1, 8]]);
    assert_eq!(matrix.determinant(), 9);
    assert_eq!(matrix, Matrix::from([[2i64, 7], [1, 8]]));
}

#[test]
fn test_row_echelon_identity_matrix() {
    let mut matrix = Matrix::from([[1i64, 0, 0], [0, 1, 0], [0, 0, 1]]);
    let result = matrix.row_echelon();
    assert_eq!(result, Matrix::from([[1i64, 0, 0], [0, 1, 0], [0, 0, 1]]));
}

#[test]
fn test_row_echelon_non_square_matrix() {
    let mut matrix = Matrix::from([[1i64, 2], [3, 4]]);
    let result = matrix.row_echelon();
    assert_eq!(result, Matrix::from([[1i64, 0], [0, 1]]));
}

#[test]
fn test_row_echelon_singular_matrix() {
    let mut matrix = Matrix::from([[1i64, 2], [2, 4]]);
    let result = matrix.row_echelon();
    assert_eq!(result, Matrix::from([[1i64, 2], [0, 0]]));
}

#[test]
fn row_echelon_moves_a_zero_row_down() {
    let mut matrix = Matrix::from([[0i64, 0, 0], [0, 0, 2], [0, 1, 0]]);
    let result = matrix.row_echelon();
    assert_eq!(result, Matrix::from([[0i64, 1, 0], [0, 0, 1], [0, 0, 0]]));
    assert_eq!(matrix, result);
}

#[test]
fn row_echelon_of_a_reduced_matrix_changes_nothing() {
    let reduced = Matrix::from([[1i64, 4, 0, -2], [0, 0, 1, 3], [0, 0, 0, 0]]);
    let mut matrix = reduced.clone();
    assert_eq!(matrix.row_echelon(), reduced);
    let mut again = matrix.clone();
    assert_eq!(again.row_echelon(), matrix);
}

#[test]
fn test_inverse_identity() {
    let mut identity_matrix = Matrix::from([[1i64, 0, 0], [0, 1, 0], [0, 0, 1]]);
    let inverse_matrix = identity_matrix.inverse().unwrap();
    assert_eq!(identity_matrix, inverse_matrix);
}

#[test]
fn test_inverse_non_square() {
    // `inverse` exists only on square matrices, so a 2 by 3 matrix has none to call.
    let mut square = Matrix::from([[1i64, 0], [0, 1]]);
    assert!(square.inverse().is_ok());
}

#[test]
fn inverse_of_a_singular_matrix_fails() {
    let mut singular_matrix = Matrix::from([[1i64, 2], [2, 4]]);
    assert_eq!(singular_matrix.inverse(), Err(LinalgError::SingularMatrix));
}

#[test]
fn inverse_swaps_in_a_row_for_a_zero_pivot() {
    let mut matrix = Matrix::from([[0i64, 1], [1, 0]]);
    assert_eq!(matrix.inverse(), Ok(Matrix::from([[0i64, 1], [1, 0]])));
    let mut matrix = Matrix::from([[0i64, 0, 1], [0, -1, 0], [1, 0, 0]]);
    let inv = matrix.inverse().unwrap();
    let mut product = inv.clone();
    assert_eq!(product.mul_mat(&matrix), Matrix::identity());
}

#[test]
fn test_rank_zero_matrix() {
    let mut matrix = Matrix::from([[0i64, 0, 0], [0, 0, 0], [0, 0, 0]]);
    assert_eq!(matrix.rank(), 0);
}

#[test]
fn test_rank_identity_matrix() {
    let mut matrix = Matrix::from([[1i64, 0, 0], [0, 1, 0], [0, 0, 1]]);
    assert_eq!(matrix.rank(), 3);
}

#[test]
fn test_rank_rectangular_matrix() {
    let mut matrix = Matrix::from([[1i64, 2, 3], [4, 5, 6]]);
    assert_eq!(matrix.rank(), 2);
}

#[test]
fn test_rank_singular_matrix() {
    let mut matrix = Matrix::from([[1i64, 2, 3], [4, 5, 6], [7, 8, 9]]);
    assert_eq!(matrix.rank(), 2);
}

#[test]
fn test_rank_non_square_matrix() {
    let mut matrix = Matrix::from([[1i64, 2], [3, 4], [5, 6]]);
    assert_eq!(matrix.rank(), 2);
}

#[test]
fn inverse_swaps_in_the_most_negative_entry() {
    let mut m = Matrix::from([[0i64, -1], [i64::MIN, 0]]);
    assert_eq!(m.determinant(), i64::MIN);
    assert_eq!(m.inverse(), Ok(Matrix::from([[0i64, 0], [-1, 0]])));
}

#[test]
fn inverse_fails_on_a_zero_column() {
    let mut m = Matrix::from([[0i64, 1], [0, 1]]);
    assert_eq!(m.inverse(), Err(LinalgError::SingularMatrix));
}
