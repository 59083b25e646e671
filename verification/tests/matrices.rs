use diffeq_gmrfs::dense::{apply_dense_constraints, apply_dirichlet, ConstraintTarget, DenseMatrix};
use diffeq_gmrfs::sparse::CompressedMatrix;

fn square(n: usize) -> DenseMatrix<i64> {
    let data: Vec<i64> = (0..(n * n) as i64).map(|v| v + 1).collect();
    DenseMatrix::from_row_major(n, n, data).unwrap()
}

#[test]
fn dense_matrix_round_trip_and_access() {
    let mut m = square(3);
    assert_eq!(m.nrows(), 3);
    assert_eq!(m.ncols(), 3);
    assert_eq!(m.get(1, 2), 6);
    m.set(1, 2, -1);
    assert_eq!(m.get(1, 2), -1);
    assert_eq!(m.into_row_major(), vec![1, 2, 3, 4, 5, -1, 7, 8, 9]);
    assert!(DenseMatrix::from_row_major(2, 3, vec![1, 2, 3]).is_none());
    assert!(DenseMatrix::<i64>::from_row_major(0, 3, vec![]).is_some());
    assert_eq!(DenseMatrix::filled(2, 2, 0.5).into_row_major(), vec![0.5; 4]);
}

#[test]
fn constraints_clear_rows_and_columns() {
    let mut m = square(3);
    apply_dense_constraints(&mut m, &[1], 7, ConstraintTarget::General, 0, 1);
    assert_eq!(m.into_row_major(), vec![1, 0, 3, 0, 1, 0, 7, 0, 9]);

    let mut m = square(3);
    apply_dense_constraints(&mut m, &[0, 2], 7, ConstraintTarget::Mass, 0, 1);
    assert_eq!(m.into_row_major(), vec![7, 0, 0, 0, 5, 0, 0, 0, 7]);
}

#[test]
fn constraints_applied_twice_change_nothing() {
    let mut once = square(4);
    apply_dense_constraints(&mut once, &[3, 1], 9, ConstraintTarget::Mass, 0, 1);
    let expected = once.into_row_major();
    let mut twice = square(4);
    apply_dense_constraints(&mut twice, &[3, 1], 9, ConstraintTarget::Mass, 0, 1);
    apply_dense_constraints(&mut twice, &[3, 1], 9, ConstraintTarget::Mass, 0, 1);
    assert_eq!(twice.into_row_major(), expected);
}

fn tridiagonal() -> CompressedMatrix<f64> {
    // [[4, 1, 0], [1, 4, 1], [0, 1, 4]]
    CompressedMatrix::new(
        3,
        3,
        vec![0, 2, 5, 7],
        vec![0, 1, 0, 1, 2, 1, 2],
        vec![4.0, 1.0, 1.0, 4.0, 1.0, 1.0, 4.0],
    )
    .unwrap()
}

#[test]
fn compressed_matrix_rejects_bad_structure() {
    assert!(CompressedMatrix::new(2, 2, vec![0, 1], vec![0], vec![1.0]).is_none());
    assert!(CompressedMatrix::new(2, 2, vec![0, 2, 1], vec![0, 1], vec![1.0, 1.0]).is_none());
    assert!(CompressedMatrix::new(2, 2, vec![0, 1, 2], vec![0, 2], vec![1.0, 1.0]).is_none());
    assert!(CompressedMatrix::new(2, 2, vec![0, 1, 2], vec![0, 1], vec![1.0]).is_none());
    assert!(CompressedMatrix::new(2, 2, vec![1, 1, 2], vec![0, 1], vec![1.0, 1.0]).is_none());
    let m = CompressedMatrix::new(2, 2, vec![0, 1, 2], vec![0, 1], vec![1.0, 1.0]).unwrap();
    assert_eq!((m.outer_dim(), m.inner_dim()), (2, 2));
}

#[test]
fn dense_block_extracts_stored_entries() {
    let m = tridiagonal();
    let full = m.dense_block(0, 3, 0, 3, 0.0).into_row_major();
    assert_eq!(full, vec![4.0, 1.0, 0.0, 1.0, 4.0, 1.0, 0.0, 1.0, 4.0]);
    let corner = m.dense_block(1, 3, 0, 2, 0.0);
    assert_eq!((corner.nrows(), corner.ncols()), (2, 2));
    assert_eq!(corner.into_row_major(), vec![1.0, 4.0, 0.0, 1.0]);
}

#[test]
fn dense_block_beyond_matrix_is_zero() {
    let m = tridiagonal();
    let block = m.dense_block(2, 5, 1, 3, 0.0).into_row_major();
    assert_eq!(block, vec![1.0, 4.0, 0.0, 0.0, 0.0, 0.0]);
    assert!(m.dense_block(1, 1, 0, 3, 0.0).into_row_major().is_empty());
}

#[test]
fn dirichlet_condition_fixes_row_column_and_rhs() {
    let mut m = square(3);
    let mut rhs = vec![10, 20, 30];
    apply_dirichlet(&mut m, &mut rhs, 1, 99, 0, 1);
    assert_eq!(rhs, vec![10, 99, 30]);
    let once = m.into_row_major();
    assert_eq!(once, vec![1, 0, 3, 0, 1, 0, 7, 0, 9]);

    let mut m = square(3);
    let mut rhs2 = vec![10, 20, 30];
    apply_dirichlet(&mut m, &mut rhs2, 1, 99, 0, 1);
    apply_dirichlet(&mut m, &mut rhs2, 1, 99, 0, 1);
    assert_eq!(m.into_row_major(), once);
    assert_eq!(rhs2, rhs);
}

#[test]
fn constraints_on_a_matrix_with_more_rows_than_columns() {
    // 3 x 2: the column of dof 1 is cleared over the first two rows only
    let mut m = DenseMatrix::from_row_major(3, 2, vec![1i64, 2, 3, 4, 5, 6]).unwrap();
    apply_dense_constraints(&mut m, &[1], 9, ConstraintTarget::Mass, 0, 1);
    assert_eq!(m.into_row_major(), vec![1, 0, 0, 9, 5, 6]);
    let mut d = DenseMatrix::from_row_major(3, 2, vec![1i64, 2, 3, 4, 5, 6]).unwrap();
    let mut rhs = vec![7i64, 8, 9];
    apply_dirichlet(&mut d, &mut rhs, 0, -3, 0, 1);
    assert_eq!(d.into_row_major(), vec![1, 0, 0, 4, 5, 6]);
    assert_eq!(rhs, vec![-3, 8, 9]);
    // no constrained dof: any shape is left as it is
    let mut wide = DenseMatrix::from_row_major(1, 3, vec![1i64, 2, 3]).unwrap();
    apply_dense_constraints(&mut wide, &[], 9, ConstraintTarget::General, 0, 1);
    assert_eq!(wide.into_row_major(), vec![1, 2, 3]);
}
