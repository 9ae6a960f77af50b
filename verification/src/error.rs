//! The failures that the library reports.

use vstd::prelude::*;

verus! {

/// Why a key, a code or a vector could not be generated.
#[derive(Debug, Clone, Copy, PartialEq, Eq, Structural)]
pub enum GenerationError {
    /// The sizes and weights asked for cannot be met by any vector.
    InvalidParameters,
    /// Resampling did not produce a fitting value within its budget.
    AttemptsExhausted,
    /// The hash of the identity has too few set bits in the scanned range.
    InsufficientHashDensity,
    /// The vector bound to the identity does not give an invertible block.
    SingularIdentityVector,
}

/// Why encoding or decoding failed.
#[derive(Debug, Clone, Copy, PartialEq, Eq, Structural)]
pub enum CodeError {
    /// The message has more bits than the code has dimensions.
    DataTooLarge,
    /// The word does not have the length that the key expects.
    InvalidDataSize,
    /// Bit flipping used up its rounds without reaching a zero syndrome.
    DecodingFailure,
    /// No error vector of the wanted weight could be drawn.
    NoiseUnavailable,
}

impl GenerationError {
    /// A short description of the failure.
    pub fn message(&self) -> (s: &'static str)
        ensures
            s@ == match *self {
                GenerationError::InvalidParameters => "Invalid parameters"@,
                GenerationError::AttemptsExhausted => "Sampling attempts exhausted"@,
                GenerationError::InsufficientHashDensity => "Identity hash has too few set bits"@,
                GenerationError::SingularIdentityVector => "Identity vector is not invertible"@,
            },
    {
        match self {
            GenerationError::InvalidParameters => "Invalid parameters",
            GenerationError::AttemptsExhausted => "Sampling attempts exhausted",
            GenerationError::InsufficientHashDensity => "Identity hash has too few set bits",
            GenerationError::SingularIdentityVector => "Identity vector is not invertible",
        }
    }
}

impl CodeError {
    /// A short description of the failure.
    pub fn message(&self) -> (s: &'static str)
        ensures
            s@ == match *self {
                CodeError::DataTooLarge => "Data is too long"@,
                CodeError::InvalidDataSize => "Invalid data size"@,
                CodeError::DecodingFailure => "Decoding failed"@,
                CodeError::NoiseUnavailable => "No error vector could be drawn"@,
            },
    {
        match self {
            CodeError::DataTooLarge => "Data is too long",
            CodeError::InvalidDataSize => "Invalid data size",
            CodeError::DecodingFailure => "Decoding failed",
            CodeError::NoiseUnavailable => "No error vector could be drawn",
        }
    }
}

} // verus!
