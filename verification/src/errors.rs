use vstd::prelude::*;

verus! {

/// The errors that can come out of processing a query.
///
/// - `InvalidTable`: a problem with the processing of a table.
/// - `InvalidColumn`: a problem with the processing of a column.
/// - `InvalidSyntax`: a malformed token sequence, or a comparison that mixes
///   a numeric side with a non-numeric side.
/// - `Error`: a missing field or operand at evaluation time, and other
///   generic failures.
#[derive(Debug, PartialEq, Eq, Structural, Clone, Copy)]
pub enum SqlError {
    InvalidTable,
    InvalidColumn,
    InvalidSyntax,
    Error,
}

impl SqlError {
    /// A human-readable description of the error.
    pub fn describe(&self) -> (r: &'static str)
        ensures
            self is InvalidTable ==> r@ == "[InvalidTable]: [Error to process table]"@,
            self is InvalidColumn ==> r@ == "[InvalidColumn]: [Error to process column]"@,
            self is InvalidSyntax ==> r@ == "[InvalidSyntax]: [Error to process query]"@,
            self is Error ==> r@ == "[Error]: [An error occurred]"@,
    {
        match self {
            SqlError::InvalidTable => "[InvalidTable]: [Error to process table]",
            SqlError::InvalidColumn => "[InvalidColumn]: [Error to process column]",
            SqlError::InvalidSyntax => "[InvalidSyntax]: [Error to process query]",
            SqlError::Error => "[Error]: [An error occurred]",
        }
    }
}

} // verus!
