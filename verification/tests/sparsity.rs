use relu_kernels::error::KernelError;
use relu_kernels::sparse::convert_to_sparse_matrix;
use relu_kernels::sparsity::{calculate_sparsity_matrix, calculate_sparsity_vector, Ratio};

#[test]
fn vector_sparsity_is_zeros_over_length() {
    let ratio = calculate_sparsity_vector(&vec![0, 3, 0, 0, -2]).unwrap();
    assert_eq!(ratio.numerator(), 3);
    assert_eq!(ratio.denominator(), 5);
    assert!(!ratio.is_zero());
    assert!(!ratio.is_one());
}

#[test]
fn an_all_zero_vector_has_sparsity_one() {
    let ratio = calculate_sparsity_vector(&vec![0, 0, 0]).unwrap();
    assert!(ratio.is_one());
    assert_eq!((ratio.numerator(), ratio.denominator()), (3, 3));
}

#[test]
fn a_vector_without_zeros_has_sparsity_zero() {
    let ratio = calculate_sparsity_vector(&vec![1, -1, 7]).unwrap();
    assert!(ratio.is_zero());
    assert_eq!((ratio.numerator(), ratio.denominator()), (0, 3));
}

#[test]
fn an_empty_vector_has_no_sparsity() {
    assert!(calculate_sparsity_vector(&Vec::new()).is_none());
}

#[test]
fn matrix_sparsity_is_one_minus_stored_over_cells() {
    let dense = vec![vec![0, 5, 0], vec![0, 0, 0], vec![-7, 0, 9]];
    let sparse = convert_to_sparse_matrix(&dense, 3).unwrap();
    let ratio = calculate_sparsity_matrix(&sparse).unwrap();
    assert_eq!(ratio.numerator(), 6);
    assert_eq!(ratio.denominator(), 9);
}

#[test]
fn matrix_sparsity_at_the_ends() {
    let zeros = convert_to_sparse_matrix(&vec![vec![0, 0], vec![0, 0]], 2).unwrap();
    assert!(calculate_sparsity_matrix(&zeros).unwrap().is_one());
    let full = convert_to_sparse_matrix(&vec![vec![1, 2], vec![3, 4]], 2).unwrap();
    assert!(calculate_sparsity_matrix(&full).unwrap().is_zero());
    let none = convert_to_sparse_matrix(&Vec::new(), 0).unwrap();
    assert!(calculate_sparsity_matrix(&none).is_none());
}

#[test]
fn sparsity_lies_between_zero_and_one() {
    for v in [vec![0], vec![1], vec![0, 1], vec![1, 0, 0, 2, 0, 0, 0]] {
        let ratio = calculate_sparsity_vector(&v).unwrap();
        assert!(ratio.numerator() <= ratio.denominator());
        assert!(ratio.denominator() > 0);
    }
}

#[test]
fn a_ratio_is_a_fraction_of_the_unit_interval() {
    let quarter = Ratio::new(1, 4).unwrap();
    assert_eq!((quarter.numerator(), quarter.denominator()), (1, 4));
    assert!(Ratio::new(0, 1).unwrap().is_zero());
    assert!(Ratio::new(7, 7).unwrap().is_one());
    assert_eq!(Ratio::new(5, 4), Err(KernelError::ConfigurationError));
    assert_eq!(Ratio::new(0, 0), Err(KernelError::ConfigurationError));
}
