//! The error type of all parsing in this crate.

use vstd::prelude::*;
use vstd::string::*;

verus! {

/// Errors that can occur during time parsing and formatting.
///
/// All variants carry no data.
#[derive(Debug, Clone, Copy, PartialEq, Eq, Structural)]
#[non_exhaustive]
pub enum TimeError {
    /// Filter string lacks `>=`, `>`, `<=`, `<`, or `=` prefix.
    MissingOperator,
    /// Empty input string.
    EmptyInput,
    /// Unknown or unsupported time suffix.
    UnknownSuffix,
    /// Numeric value can't be parsed.
    InvalidNumber,
    /// Date/time string doesn't match expected format.
    InvalidDate,
}

/// `Result` type alias for `timefilter` operations.
pub type TimeResult<T> = Result<T, TimeError>;

/// The human-readable message of each error.
pub open spec fn error_message(e: TimeError) -> Seq<char> {
    match e {
        TimeError::MissingOperator => "time filter must start with an operator (>=, >, <=, <, =)"@,
        TimeError::EmptyInput => "empty input"@,
        TimeError::UnknownSuffix => "unknown time suffix"@,
        TimeError::InvalidNumber => "failed to parse number"@,
        TimeError::InvalidDate => "failed to parse date/time"@,
    }
}

impl TimeError {
    /// The error's message, as its display text.
    pub fn to_string(&self) -> (r: String)
        ensures
            r@ == error_message(*self),
    {
        match self {
            TimeError::MissingOperator => String::from_str(
                "time filter must start with an operator (>=, >, <=, <, =)",
            ),
            TimeError::EmptyInput => String::from_str("empty input"),
            TimeError::UnknownSuffix => String::from_str("unknown time suffix"),
            TimeError::InvalidNumber => String::from_str("failed to parse number"),
            TimeError::InvalidDate => String::from_str("failed to parse date/time"),
        }
    }
}

} // verus!
