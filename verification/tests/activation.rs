use relu_kernels::activation::relu;

#[test]
fn relu_clamps_negative_samples() {
    assert_eq!(relu(&vec![1, 0, -1, 2]), vec![1, 0, 0, 2]);
}

#[test]
fn relu_keeps_length_and_order() {
    let input = vec![5, -5, 4, -4, 3, -3, 0];
    let output = relu(&input);
    assert_eq!(output.len(), input.len());
    assert_eq!(output, vec![5, 0, 4, 0, 3, 0, 0]);
}

#[test]
fn relu_twice_is_relu_once() {
    let input = vec![i32::MIN, -7, -1, 0, 1, 7, i32::MAX];
    let once = relu(&input);
    let twice = relu(&once);
    assert_eq!(once, twice);
    assert_eq!(once, vec![0, 0, 0, 0, 1, 7, i32::MAX]);
}

#[test]
fn relu_of_empty_is_empty() {
    assert_eq!(relu(&Vec::new()), Vec::<i32>::new());
}
