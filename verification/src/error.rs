use vstd::prelude::*;

verus! {

/// Why a configuration cannot be run.
#[derive(Debug, Clone, Copy, PartialEq, Eq, Structural)]
pub enum KernelError {
    /// A distribution or a probability has parameters that describe nothing to draw from.
    ConfigurationError,
    /// The input length, the rank and the size of the weights do not agree.
    DimensionMismatch,
    /// A matrix handed to a conversion has rows of unequal length, or a shape that the
    /// layout it is converted to cannot hold.
    ConversionError,
}

impl KernelError {
    /// A one-line description for reports.
    pub fn message(&self) -> (text: String)
        ensures
            text@ == match *self {
                KernelError::ConfigurationError => "invalid distribution parameters"@,
                KernelError::DimensionMismatch => "input length, rank and weights disagree"@,
                KernelError::ConversionError => "matrix cannot be converted to the layout"@,
            },
    {
        match self {
            KernelError::ConfigurationError => "invalid distribution parameters".to_string(),
            KernelError::DimensionMismatch => "input length, rank and weights disagree".to_string(),
            KernelError::ConversionError => "matrix cannot be converted to the layout".to_string(),
        }
    }
}

} // verus!
