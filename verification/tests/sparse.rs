use relu_kernels::error::KernelError;
use relu_kernels::sparse::{convert_to_sparse_matrix, sparse_dot_product};

#[test]
fn only_cells_that_are_not_zero_are_stored() {
    let dense = vec![vec![0, 5, 0], vec![0, 0, 0], vec![-7, 0, 9]];
    let sparse = convert_to_sparse_matrix(&dense, 3).unwrap();
    assert_eq!(sparse.rows(), 3);
    assert_eq!(sparse.cols(), 3);
    assert_eq!(sparse.nnz(), 3);
    assert_eq!(sparse.row_entries(0), Some(vec![(1, 5)]));
    assert_eq!(sparse.row_entries(1), Some(Vec::new()));
    assert_eq!(sparse.row_entries(2), Some(vec![(0, -7), (2, 9)]));
    assert_eq!(sparse.row_entries(3), None);
}

#[test]
fn dense_to_sparse_and_back_is_exact() {
    let dense = vec![
        vec![0, 1, 0, -2],
        vec![3, 0, 0, 0],
        vec![0, 0, 0, 0],
        vec![i32::MIN, 0, i32::MAX, 4],
    ];
    let sparse = convert_to_sparse_matrix(&dense, 4).unwrap();
    assert_eq!(sparse.to_dense(), dense);
    assert_eq!(sparse.nnz(), 6);
}

#[test]
fn a_full_matrix_and_an_empty_one_round_trip() {
    let full = vec![vec![1, 2], vec![3, 4]];
    let sparse = convert_to_sparse_matrix(&full, 2).unwrap();
    assert_eq!(sparse.nnz(), 4);
    assert_eq!(sparse.to_dense(), full);
    let zeros = vec![vec![0, 0], vec![0, 0]];
    let sparse = convert_to_sparse_matrix(&zeros, 2).unwrap();
    assert_eq!(sparse.nnz(), 0);
    assert_eq!(sparse.to_dense(), zeros);
    let none: Vec<Vec<i32>> = Vec::new();
    let sparse = convert_to_sparse_matrix(&none, 0).unwrap();
    assert_eq!(sparse.rows(), 0);
    assert_eq!(sparse.nnz(), 0);
    assert_eq!(sparse.to_dense(), none);
}

#[test]
fn ragged_rows_are_a_conversion_error() {
    let ragged = vec![vec![1, 2], vec![3]];
    assert!(matches!(convert_to_sparse_matrix(&ragged, 2), Err(KernelError::ConversionError)));
}

#[test]
fn a_matrix_of_another_rank_is_a_dimension_mismatch() {
    let dense = vec![vec![1, 2], vec![3, 4]];
    assert!(matches!(convert_to_sparse_matrix(&dense, 3), Err(KernelError::DimensionMismatch)));
    let wide = vec![vec![1, 2, 3], vec![4, 5, 6]];
    assert!(matches!(convert_to_sparse_matrix(&wide, 2), Err(KernelError::DimensionMismatch)));
    assert!(matches!(convert_to_sparse_matrix(&wide, 3), Err(KernelError::DimensionMismatch)));
}

#[test]
fn sparse_kernel_visits_stored_entries_only() {
    let dense = vec![vec![0, 2, 0], vec![4, 0, 0], vec![0, 0, -3]];
    let sparse = convert_to_sparse_matrix(&dense, 3).unwrap();
    assert_eq!(sparse_dot_product(&vec![1, 10, 100], &sparse), Ok(vec![40, 2, -300]));
    assert_eq!(sparse_dot_product(&vec![0, 10, 0], &sparse), Ok(vec![40, 0, 0]));
    assert_eq!(sparse_dot_product(&vec![0, 0, 0], &sparse), Ok(vec![0, 0, 0]));
}
