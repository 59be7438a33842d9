//! Domain errors of declarative memory.
use vstd::prelude::*;

verus! {

/// Errors of the memory domain.
///
/// The activation and threshold of a threshold miss are `f64` values, carried
/// here as their IEEE-754 bit patterns (`f64::to_bits`).
#[derive(Debug, Clone, PartialEq)]
pub enum MemoryError {
    Validation(String),
    NotFound(String),
    Conflict(String),
    ThresholdMiss { activation: u64, threshold: u64 },
    StoreUnavailable(String),
    Serialization(String),
}

pub type MemoryResult<T> = Result<T, MemoryError>;

/// The message that `Display` gives each error whose payload is text.
pub open spec fn error_text(e: MemoryError) -> Seq<char>
    recommends
        !(e is ThresholdMiss),
{
    match e {
        MemoryError::Validation(m) => "validation error: "@ + m@,
        MemoryError::NotFound(m) => "not found: "@ + m@,
        MemoryError::Conflict(m) => "conflict: "@ + m@,
        MemoryError::ThresholdMiss { .. } => Seq::empty(),
        MemoryError::StoreUnavailable(m) => "store unavailable: "@ + m@,
        MemoryError::Serialization(m) => "serialization error: "@ + m@,
    }
}

impl MemoryError {
    /// The error's message, as `to_string()` writes it. A threshold miss is
    /// written with its two floats in six decimals, which is left to callers
    /// that hold the floats.
    pub fn message(&self) -> (r: String)
        requires
            !(*self is ThresholdMiss),
        ensures
            r@ == error_text(*self),
    {
        match self {
            MemoryError::Validation(m) => String::from_str("validation error: ").concat(m.as_str()),
            MemoryError::NotFound(m) => String::from_str("not found: ").concat(m.as_str()),
            MemoryError::Conflict(m) => String::from_str("conflict: ").concat(m.as_str()),
            MemoryError::ThresholdMiss { .. } => String::new(),
            MemoryError::StoreUnavailable(m) => String::from_str("store unavailable: ").concat(
                m.as_str(),
            ),
            MemoryError::Serialization(m) => String::from_str("serialization error: ").concat(
                m.as_str(),
            ),
        }
    }
}

} // verus!
