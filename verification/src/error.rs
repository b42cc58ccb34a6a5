//! Error type of the training library.
use vstd::prelude::*;
use vstd::string::StringExecFns;

verus! {

/// Errors reported by training-side validation and loss routing.
#[derive(Debug)]
pub enum TrainError {
    /// A configuration value or rule was rejected.
    InvalidConfig(String),
    /// A tensor had a shape or content that the operation does not accept.
    InvalidTensor(String),
    /// The requested combination is not supported.
    Unsupported(String),
    /// A tensor operation failed.
    Tensor(candle_core::Error),
}

/// Builds an owned message from a string literal.
pub fn message(text: &str) -> (m: String)
    ensures
        m@ == text@,
{
    String::from_str(text)
}

} // verus!
