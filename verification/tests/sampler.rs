use relu_kernels::error::KernelError;
use relu_kernels::sampler::{
    initialize_sparse_vector, initialize_vector_from_distribution, is_zeroed, Distribution,
};
use relu_kernels::sparsity::Ratio;

#[test]
fn a_uniform_range_must_not_be_empty() {
    assert_eq!(Distribution::Uniform { low: -1, high: 1 }.validate(), Ok(()));
    assert_eq!(
        Distribution::Uniform { low: 1, high: 1 }.validate(),
        Err(KernelError::ConfigurationError)
    );
    assert_eq!(
        Distribution::Uniform { low: 2, high: 1 }.validate(),
        Err(KernelError::ConfigurationError)
    );
}

#[test]
fn a_standard_deviation_must_be_positive() {
    assert_eq!(Distribution::Normal { mean: 0, std_dev: 1 }.validate(), Ok(()));
    assert_eq!(
        Distribution::Normal { mean: 0, std_dev: 0 }.validate(),
        Err(KernelError::ConfigurationError)
    );
    assert_eq!(
        Distribution::Normal { mean: 5, std_dev: -3 }.validate(),
        Err(KernelError::ConfigurationError)
    );
}

#[test]
fn the_first_draws_are_zeroed() {
    let quarter = Ratio::new(1, 4).unwrap();
    assert!(is_zeroed(0, &quarter));
    assert!(!is_zeroed(1, &quarter));
    assert!(!is_zeroed(3, &quarter));
    let never = Ratio::new(0, 4).unwrap();
    assert!(!is_zeroed(0, &never));
    let always = Ratio::new(4, 4).unwrap();
    assert!(is_zeroed(3, &always));
}

#[test]
fn a_vector_holds_one_sample_per_element() {
    assert_eq!(initialize_vector_from_distribution(4, || 7), vec![7, 7, 7, 7]);
    assert_eq!(initialize_vector_from_distribution(0, || 7), Vec::<i32>::new());
}

#[test]
fn probability_one_zeroes_every_element() {
    let always = Ratio::new(3, 3).unwrap();
    assert_eq!(initialize_sparse_vector(50, always, || 7), vec![0; 50]);
    let always = Ratio::new(1, 1).unwrap();
    assert_eq!(initialize_sparse_vector(50, always, || 7), vec![0; 50]);
}

#[test]
fn probability_zero_zeroes_no_element() {
    let never = Ratio::new(0, 5).unwrap();
    assert_eq!(initialize_sparse_vector(50, never, || 7), vec![7; 50]);
}

#[test]
fn every_element_is_a_zero_or_a_sample() {
    let half = Ratio::new(1, 2).unwrap();
    let out = initialize_sparse_vector(400, half, || 7);
    assert_eq!(out.len(), 400);
    assert!(out.iter().all(|&x| x == 0 || x == 7));
    assert!(out.iter().any(|&x| x == 0));
    assert!(out.iter().any(|&x| x == 7));
}
