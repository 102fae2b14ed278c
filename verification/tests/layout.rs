use relu_kernels::error::KernelError;
use relu_kernels::layout::{flat_vector_to_matrix, is_uniform, to_flattened};

#[test]
fn flat_vector_is_cut_into_rows() {
    let flat = vec![1, 2, 3, 4, 5, 6, 7, 8, 9];
    let dense = flat_vector_to_matrix(3, &flat).unwrap();
    assert_eq!(dense, vec![vec![1, 2, 3], vec![4, 5, 6], vec![7, 8, 9]]);
}

#[test]
fn flat_vector_of_wrong_length_is_a_dimension_mismatch() {
    assert_eq!(flat_vector_to_matrix(2, &vec![1, 2, 3]), Err(KernelError::DimensionMismatch));
    assert_eq!(flat_vector_to_matrix(2, &vec![1, 2, 3, 4, 5]), Err(KernelError::DimensionMismatch));
    assert_eq!(flat_vector_to_matrix(0, &vec![1]), Err(KernelError::DimensionMismatch));
    assert_eq!(flat_vector_to_matrix(usize::MAX, &vec![1]), Err(KernelError::DimensionMismatch));
}

#[test]
fn rank_zero_gives_a_matrix_without_rows() {
    assert_eq!(flat_vector_to_matrix(0, &Vec::new()), Ok(Vec::new()));
}

#[test]
fn flattening_joins_the_rows() {
    let dense = vec![vec![1, 2], vec![3, 4]];
    assert_eq!(to_flattened(&dense), Ok(vec![1, 2, 3, 4]));
    let wide = vec![vec![1, 2, 3], vec![4, 5, 6]];
    assert_eq!(to_flattened(&wide), Ok(vec![1, 2, 3, 4, 5, 6]));
    assert_eq!(to_flattened(&Vec::new()), Ok(Vec::new()));
}

#[test]
fn flattening_ragged_rows_is_a_conversion_error() {
    let ragged = vec![vec![1, 2], vec![3]];
    assert_eq!(to_flattened(&ragged), Err(KernelError::ConversionError));
    assert!(!is_uniform(&ragged));
    assert!(is_uniform(&vec![vec![1, 2], vec![3, 4]]));
}

#[test]
fn flattened_index_is_row_times_rank_plus_column() {
    let dense = vec![vec![10, 11, 12], vec![20, 21, 22], vec![30, 31, 32]];
    let flat = to_flattened(&dense).unwrap();
    for i in 0..3 {
        for j in 0..3 {
            assert_eq!(flat[i * 3 + j], dense[i][j]);
        }
    }
}

#[test]
fn dense_and_flattened_round_trip() {
    let dense = vec![vec![0, -1, 2], vec![3, 0, -5], vec![6, 7, 0]];
    let flat = to_flattened(&dense).unwrap();
    assert_eq!(flat_vector_to_matrix(3, &flat), Ok(dense));
    let cells = vec![9, 8, 7, 6];
    let rows = flat_vector_to_matrix(2, &cells).unwrap();
    assert_eq!(to_flattened(&rows), Ok(cells));
}
