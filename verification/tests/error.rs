use relu_kernels::error::KernelError;

#[test]
fn every_error_has_its_message() {
    assert_eq!(KernelError::ConfigurationError.message(), "invalid distribution parameters");
    assert_eq!(
        KernelError::DimensionMismatch.message(),
        "input length, rank and weights disagree"
    );
    assert_eq!(KernelError::ConversionError.message(), "matrix cannot be converted to the layout");
}
