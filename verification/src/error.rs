use vstd::prelude::*;

verus! {

/// Errors that can occur during size parsing.
#[derive(Debug, Clone, Copy, PartialEq, Eq, Structural)]
#[non_exhaustive]
pub enum SizeError {
    /// No operator found in filter string.
    MissingOperator,
    /// Unable to parse the numeric part of a size string.
    InvalidNumber,
    /// Unknown or unsupported size unit suffix.
    UnknownUnit,
    /// Empty input string.
    EmptyInput,
}

/// `Result` type alias for size operations.
pub type SizeResult<T> = Result<T, SizeError>;

impl SizeError {
    /// The human-readable message of this error.
    pub fn to_string(&self) -> (r: String)
        ensures
            r@ == self.message(),
    {
        let s = match self {
            SizeError::MissingOperator => "size filter must start with an operator (>=, >, <=, <, =)",
            SizeError::InvalidNumber => "failed to parse number",
            SizeError::UnknownUnit => "unknown size unit",
            SizeError::EmptyInput => "empty input",
        };
        s.to_owned()
    }

    /// The message that `to_string` produces for each error.
    pub open spec fn message(&self) -> Seq<char> {
        match self {
            SizeError::MissingOperator => "size filter must start with an operator (>=, >, <=, <, =)"@,
            SizeError::InvalidNumber => "failed to parse number"@,
            SizeError::UnknownUnit => "unknown size unit"@,
            SizeError::EmptyInput => "empty input"@,
        }
    }
}

} // verus!
