use vstd::prelude::*;

verus! {

/// Common error type for all framework operations.
#[derive(Debug)]
pub enum UorError {
    /// Generic or unclassified failure, with a human-readable message.
    General(String),
    /// Invalid chart input (for instance, an empty schema payload).
    ChartError(String),
    /// Failure raised by a scheduler implementation during dispatch.
    ConcurrencyError(String),
    /// Reserved extension point.
    Other(String),
}

/// Specialized `Result` type used throughout the library.
pub type UorResult<T> = Result<T, UorError>;

} // verus!
