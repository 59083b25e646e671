use diffeq_gmrfs::linalg::{check_dimension, concat_blocks, partition_into_blocks, split_blocks, LinalgError};

#[test]
fn partition_checks_square_and_divisible() {
    assert_eq!(partition_into_blocks(6, 6, 3), Ok(2));
    assert_eq!(partition_into_blocks(6, 5, 3), Err(LinalgError::NonSquareMatrix));
    assert_eq!(
        partition_into_blocks(7, 7, 3),
        Err(LinalgError::NonDivisibleBlocks { found: 7, blocks: 3 })
    );
    // squareness is checked before the block count is used
    assert_eq!(partition_into_blocks(4, 3, 0), Err(LinalgError::NonSquareMatrix));
}

#[test]
fn dimension_check_reports_found_and_expected() {
    let err = check_dimension(3, 4).unwrap_err();
    match err {
        LinalgError::DimensionMismatch { found, expected } => {
            assert_eq!(found, 3);
            assert_eq!(expected, 4);
        }
        _ => panic!("unexpected error"),
    }
    assert_eq!(check_dimension(4, 4), Ok(()));
}

#[test]
fn split_into_blocks_like_chunks() {
    let values = vec![1, 2, 3, 4, 5, 6, 7];
    let blocks = split_blocks(&values, 3);
    assert_eq!(blocks, vec![vec![1, 2, 3], vec![4, 5, 6], vec![7]]);
    assert!(split_blocks::<i32>(&[], 2).is_empty());
    let expected: Vec<Vec<i32>> = values.chunks(2).map(|c| c.to_vec()).collect();
    assert_eq!(split_blocks(&values, 2), expected);
}

#[test]
fn split_then_concat_restores_vector() {
    let values: Vec<f64> = (0..12).map(|i| i as f64 * 0.5).collect();
    let blocks = split_blocks(&values, 4);
    assert_eq!(blocks.len(), 3);
    assert_eq!(concat_blocks(&blocks, 4), values);
}

#[test]
fn concat_lays_blocks_in_order() {
    let blocks = vec![vec![1, 2], vec![3, 4], vec![5, 6]];
    assert_eq!(concat_blocks(&blocks, 2), vec![1, 2, 3, 4, 5, 6]);
    assert!(concat_blocks::<u8>(&[], 5).is_empty());
}
