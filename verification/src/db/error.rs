use vstd::prelude::*;

verus! {

/// Errors of the storage layer.
///
/// Errors raised by the database driver reach the library as their messages.
#[derive(Debug, Clone, PartialEq, Eq)]
pub enum StorageError {
    /// The database reported an error.
    DatabaseError(String),
    /// A database transaction failed.
    DatabaseTransactionError(String),
    /// An input/output error occurred.
    IoError(String),
    /// A path contains non-UTF-8 characters.
    InvalidUtf8Path,
    /// A JSON value doesn't match the required structure.
    InvalidJsonParameters(String),
    /// A percentage outside `0..=100`.
    InvalidPercentageNumber(i8),
    /// A number does not fit the integer type that stores it.
    IntegerOutOfRange,
}

} // verus!
