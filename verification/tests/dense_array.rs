use relu_kernels::dense_array::{convert_to_array2, dot_product_array};
use relu_kernels::error::KernelError;

#[test]
fn the_array_has_the_shape_of_the_matrix() {
    let array = convert_to_array2(&vec![vec![1, 2, 3], vec![4, 5, 6]]).unwrap();
    assert_eq!(array.rows(), 2);
    assert_eq!(array.cols(), 3);
    let empty = convert_to_array2(&Vec::new()).unwrap();
    assert_eq!(empty.rows(), 0);
    assert_eq!(empty.cols(), 0);
}

#[test]
fn ragged_rows_are_refused() {
    assert!(matches!(
        convert_to_array2(&vec![vec![1, 2], vec![3]]),
        Err(KernelError::ConversionError)
    ));
    assert!(matches!(
        convert_to_array2(&vec![vec![1, 2], vec![3], vec![4, 5, 6]]),
        Err(KernelError::ConversionError)
    ));
}

#[test]
fn the_array_product_is_the_row_vector_times_the_matrix() {
    let array = convert_to_array2(&vec![vec![1, 2], vec![3, 4]]).unwrap();
    assert_eq!(dot_product_array(&vec![1, 10], &array), Ok(vec![31, 42]));
    assert_eq!(dot_product_array(&vec![0, 0], &array), Ok(vec![0, 0]));
}

#[test]
fn the_array_product_does_not_wrap() {
    let array = convert_to_array2(&vec![vec![i32::MAX, i32::MIN], vec![i32::MAX, i32::MIN]]).unwrap();
    let high = (i32::MAX as i128) * (i32::MAX as i128) * 2;
    let low = (i32::MAX as i128) * (i32::MIN as i128) * 2;
    assert_eq!(dot_product_array(&vec![i32::MAX, i32::MAX], &array), Ok(vec![high, low]));
}

#[test]
fn an_array_of_another_shape_is_a_dimension_mismatch() {
    let array = convert_to_array2(&vec![vec![1, 2, 3], vec![4, 5, 6]]).unwrap();
    assert_eq!(dot_product_array(&vec![1, 2], &array), Err(KernelError::DimensionMismatch));
    assert_eq!(dot_product_array(&vec![1, 2, 3], &array), Err(KernelError::DimensionMismatch));
}
