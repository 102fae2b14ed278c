use relu_kernels::activation::relu;
use relu_kernels::dense_array::{convert_to_array2, dot_product_array};
use relu_kernels::error::KernelError;
use relu_kernels::kernels::{
    checked_dot_product_loop, dot_product, dot_product_loop, dot_product_simd,
    double_checked_dot_product_loop, generous_checked_dot_product_loop, has_rank,
    optimized_dot_product,
};
use relu_kernels::layout::to_flattened;
use relu_kernels::sparse::{convert_to_sparse_matrix, sparse_dot_product};

fn counting_matrix(n: usize) -> Vec<Vec<i32>> {
    let mut rows = Vec::new();
    for i in 0..n {
        let mut row = Vec::new();
        for j in 0..n {
            let cell = ((i * 31 + j * 17) % 23) as i32 - 9;
            row.push(if (i + j) % 4 == 0 { 0 } else { cell });
        }
        rows.push(row);
    }
    rows
}

fn counting_vector(n: usize) -> Vec<i32> {
    (0..n).map(|i| if i % 3 == 0 { 0 } else { (i as i32 * 7) % 11 - 5 }).collect()
}

fn reference(a: &Vec<i32>, w: &Vec<Vec<i32>>) -> Vec<i128> {
    let n = a.len();
    let mut out = vec![0i128; n];
    for j in 0..n {
        for i in 0..n {
            out[j] += a[i] as i128 * w[i][j] as i128;
        }
    }
    out
}

fn exact_kernels(a: &Vec<i32>, w: &Vec<Vec<i32>>) -> Vec<Result<Vec<i128>, KernelError>> {
    let n = a.len();
    let flat = to_flattened(w).unwrap();
    let sparse = convert_to_sparse_matrix(w, n).unwrap();
    let array = convert_to_array2(w).unwrap();
    vec![
        dot_product(a, w),
        dot_product_loop(a, w, n),
        checked_dot_product_loop(a, w, n),
        generous_checked_dot_product_loop(a, &flat, n),
        double_checked_dot_product_loop(a, w, n),
        dot_product_array(a, &array),
        dot_product_simd(a, w),
        sparse_dot_product(a, &sparse),
    ]
}

#[test]
fn skipping_loop_equals_basic_loop_on_hand_computed_case() {
    let activation_in = relu(&vec![1, 0, -1, 2]);
    assert_eq!(activation_in, vec![1, 0, 0, 2]);
    let weights = vec![
        vec![1, 2, 3, 4],
        vec![5, 6, 7, 8],
        vec![9, 10, 11, 12],
        vec![13, 14, 15, 16],
    ];
    let expected: Vec<i128> = vec![27, 30, 33, 36];
    assert_eq!(dot_product_loop(&activation_in, &weights, 4), Ok(expected.clone()));
    assert_eq!(checked_dot_product_loop(&activation_in, &weights, 4), Ok(expected));
}

#[test]
fn every_exact_kernel_gives_the_hand_computed_output() {
    let a = vec![1, 0, 0, 2];
    let w = vec![
        vec![1, 2, 3, 4],
        vec![5, 6, 7, 8],
        vec![9, 10, 11, 12],
        vec![13, 14, 15, 16],
    ];
    for result in exact_kernels(&a, &w) {
        assert_eq!(result, Ok(vec![27, 30, 33, 36]));
    }
}

#[test]
fn output_sums_over_inputs_not_over_outputs() {
    let a = vec![1, 10];
    let w = vec![vec![1, 2], vec![3, 4]];
    for result in exact_kernels(&a, &w) {
        assert_eq!(result, Ok(vec![31, 42]));
    }
}

#[test]
fn all_exact_kernels_agree_for_many_ranks() {
    for n in [1usize, 2, 3, 7, 8, 9, 15, 16, 17, 24, 33] {
        let a = counting_vector(n);
        let w = counting_matrix(n);
        let expected = reference(&a, &w);
        for result in exact_kernels(&a, &w) {
            assert_eq!(result, Ok(expected.clone()));
        }
    }
}

#[test]
fn kernels_agree_on_inputs_that_are_not_rectified() {
    let a = vec![-3, 0, 5, -1, 0];
    let w = counting_matrix(5);
    let expected = reference(&a, &w);
    for result in exact_kernels(&a, &w) {
        assert_eq!(result, Ok(expected.clone()));
    }
}

#[test]
fn rank_zero_gives_an_empty_output_from_every_kernel() {
    let a: Vec<i32> = Vec::new();
    let w: Vec<Vec<i32>> = Vec::new();
    for result in exact_kernels(&a, &w) {
        assert_eq!(result, Ok(Vec::new()));
    }
    assert_eq!(optimized_dot_product(&a, &w), Ok(Vec::new()));
}

#[test]
fn lanes_with_a_padded_last_lane_match_the_basic_loop() {
    let n = 10;
    let a: Vec<i32> = vec![3, -1, 4, 1, -5, 9, 2, -6, 5, 3];
    let w = counting_matrix(n);
    let expected = dot_product_loop(&a, &w, n).unwrap();
    assert_eq!(dot_product_simd(&a, &w), Ok(expected.clone()));
    assert_eq!(expected, reference(&a, &w));
}

#[test]
fn lanes_count_the_elements_of_the_last_lane() {
    let n = 10;
    let a = vec![1; n];
    let w = vec![vec![1; n]; n];
    assert_eq!(dot_product_simd(&a, &w), Ok(vec![10i128; n]));
}

#[test]
fn sums_wider_than_sixty_four_bits_are_exact() {
    let a = vec![i32::MIN; 4];
    let w = vec![vec![i32::MIN; 4]; 4];
    let term: i128 = (i32::MIN as i128) * (i32::MIN as i128);
    let expected = vec![4 * term; 4];
    assert!(4 * term > i64::MAX as i128);
    for result in exact_kernels(&a, &w) {
        assert_eq!(result, Ok(expected.clone()));
    }
    assert_eq!(optimized_dot_product(&a, &w), Ok(vec![0i128; 4]));
}

#[test]
fn map_with_check_drops_terms_of_negative_weights() {
    let a = vec![1];
    let w = vec![vec![-1]];
    assert_eq!(dot_product(&a, &w), Ok(vec![-1]));
    assert_eq!(optimized_dot_product(&a, &w), Ok(vec![0]));
    let a = vec![2, 3];
    let w = vec![vec![1, -4], vec![-2, 5]];
    assert_eq!(dot_product(&a, &w), Ok(vec![-4, 7]));
    assert_eq!(optimized_dot_product(&a, &w), Ok(vec![2, 15]));
}

#[test]
fn map_with_check_is_exact_where_no_weight_is_negative() {
    let a = vec![2, 0, 3];
    let w = vec![vec![1, 0, 4], vec![7, 8, 9], vec![0, 5, 6]];
    assert_eq!(optimized_dot_product(&a, &w), dot_product(&a, &w));
    assert_eq!(optimized_dot_product(&a, &w), Ok(vec![2, 15, 26]));
}

#[test]
fn an_input_of_the_wrong_length_is_a_dimension_mismatch() {
    let a = vec![1, 2, 3];
    let w = vec![vec![1, 2], vec![3, 4]];
    let flat = vec![1, 2, 3, 4];
    let sparse = convert_to_sparse_matrix(&w, 2).unwrap();
    let array = convert_to_array2(&w).unwrap();
    let mismatch = Err(KernelError::DimensionMismatch);
    assert_eq!(dot_product(&a, &w), mismatch);
    assert_eq!(optimized_dot_product(&a, &w), mismatch);
    assert_eq!(dot_product_loop(&a, &w, 2), mismatch);
    assert_eq!(dot_product_loop(&a, &w, 3), mismatch);
    assert_eq!(checked_dot_product_loop(&a, &w, 2), mismatch);
    assert_eq!(generous_checked_dot_product_loop(&a, &flat, 2), mismatch);
    assert_eq!(generous_checked_dot_product_loop(&a, &flat, 3), mismatch);
    assert_eq!(double_checked_dot_product_loop(&a, &w, 2), mismatch);
    assert_eq!(dot_product_array(&a, &array), mismatch);
    assert_eq!(dot_product_simd(&a, &w), mismatch);
    assert_eq!(sparse_dot_product(&a, &sparse), mismatch);
}

#[test]
fn a_matrix_that_is_not_square_is_a_dimension_mismatch() {
    let a = vec![1, 2];
    let ragged = vec![vec![1, 2], vec![3]];
    let wide = vec![vec![1, 2, 3], vec![4, 5, 6]];
    let mismatch = Err(KernelError::DimensionMismatch);
    for w in [&ragged, &wide] {
        assert_eq!(dot_product(&a, w), mismatch);
        assert_eq!(optimized_dot_product(&a, w), mismatch);
        assert_eq!(dot_product_loop(&a, w, 2), mismatch);
        assert_eq!(checked_dot_product_loop(&a, w, 2), mismatch);
        assert_eq!(double_checked_dot_product_loop(&a, w, 2), mismatch);
        assert_eq!(dot_product_simd(&a, w), mismatch);
    }
    let array = convert_to_array2(&wide).unwrap();
    assert_eq!(dot_product_array(&a, &array), mismatch);
    assert_eq!(
        generous_checked_dot_product_loop(&a, &vec![1, 2, 3, 4, 5, 6], 2),
        mismatch
    );
    assert_eq!(
        generous_checked_dot_product_loop(&a, &Vec::new(), usize::MAX),
        mismatch
    );
}

#[test]
fn has_rank_tells_square_matrices_of_the_rank() {
    assert!(has_rank(&vec![vec![1, 2], vec![3, 4]], 2));
    assert!(!has_rank(&vec![vec![1, 2], vec![3, 4]], 3));
    assert!(!has_rank(&vec![vec![1, 2], vec![3]], 2));
    assert!(has_rank(&Vec::new(), 0));
}
