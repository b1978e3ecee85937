//! The error of a table operation.

use vstd::prelude::*;

verus! {

/// An error of the operating system, or of the storage that keeps an index.
#[verifier::external_type_specification]
#[verifier::external_body]
pub struct ExIoError(std::io::Error);

/// The reason why a table operation failed.
#[derive(Debug)]
pub enum TableError {
    /// The arguments of the operation are not valid, for the reason given.
    InvalidInput(String),
    /// The storage of the table failed.
    Io(std::io::Error),
}

impl TableError {
    /// This is an invalid input error with the given message.
    pub open spec fn is_invalid_input(self, message: Seq<char>) -> bool {
        self matches TableError::InvalidInput(text) && text@ == message
    }
}

} // verus!
