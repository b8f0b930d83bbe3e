//! Dense vectors and matrices of fixed dimensions over a generic scalar, with their
//! arithmetic, products, norms, and the elimination algorithms built on them: reduced row
//! echelon form, determinant, inverse and rank.

pub mod elimination;
pub mod error;
pub mod laws;
pub mod matrix;
pub mod ratio;
pub mod scalar;
pub mod vector;
