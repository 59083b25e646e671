use diffeq_gmrfs::layout::{column_major_to_row_major, ravel_row_major, unravel_column_major};

#[test]
fn unravel_column_major_first_axis_fastest() {
    assert_eq!(unravel_column_major(0, &[2, 3]), vec![0, 0]);
    assert_eq!(unravel_column_major(1, &[2, 3]), vec![1, 0]);
    assert_eq!(unravel_column_major(5, &[2, 3]), vec![1, 2]);
    assert_eq!(unravel_column_major(7, &[2, 3, 2]), vec![1, 0, 1]);
    assert_eq!(unravel_column_major(3, &[]), Vec::<usize>::new());
}

#[test]
fn ravel_row_major_last_axis_fastest() {
    assert_eq!(ravel_row_major(&[1, 2], &[2, 3]), 5);
    assert_eq!(ravel_row_major(&[0, 1], &[2, 3]), 1);
    assert_eq!(ravel_row_major(&[1, 0, 1], &[2, 3, 2]), 7);
    // coordinates and extents are paired from the last axis
    assert_eq!(ravel_row_major(&[1], &[2, 3]), 1);
    assert_eq!(ravel_row_major(&[4, 1, 2], &[2, 3]), 5);
    assert_eq!(ravel_row_major(&[], &[2, 3]), 0);
}

#[test]
fn column_major_matrix_becomes_row_major() {
    // entry (i, j) of a 2 x 3 matrix holds 10 * i + j
    let column_major = vec![0, 10, 1, 11, 2, 12];
    let row_major = column_major_to_row_major(&column_major, &[2, 3]);
    assert_eq!(row_major, vec![0, 1, 2, 10, 11, 12]);
}

#[test]
fn column_major_cube_becomes_row_major() {
    let shape = [2, 3, 4];
    let mut column_major = vec![0usize; 24];
    for i in 0..2 {
        for j in 0..3 {
            for k in 0..4 {
                column_major[i + 2 * j + 6 * k] = 100 * i + 10 * j + k;
            }
        }
    }
    let row_major = column_major_to_row_major(&column_major, &shape);
    for i in 0..2 {
        for j in 0..3 {
            for k in 0..4 {
                assert_eq!(row_major[12 * i + 4 * j + k], 100 * i + 10 * j + k);
            }
        }
    }
}

#[test]
fn layout_change_is_a_permutation() {
    let shape = [3, 2, 2];
    let values: Vec<usize> = (0..12).collect();
    let mut out = column_major_to_row_major(&values, &shape);
    out.sort();
    assert_eq!(out, values);
}

#[test]
fn layout_change_of_empty_and_vector_shapes() {
    assert_eq!(column_major_to_row_major::<f64>(&[], &[0, 3]), Vec::<f64>::new());
    assert_eq!(column_major_to_row_major(&[1.5, 2.5, 3.5], &[3]), vec![1.5, 2.5, 3.5]);
    assert_eq!(column_major_to_row_major(&[7], &[]), vec![7]);
}
