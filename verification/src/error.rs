//! Why a table is refused.

use vstd::prelude::*;
use vstd::string::StringExecFns;

verus! {

/// Why nothing was transposed.
#[derive(Debug, Clone, Copy, PartialEq, Eq)]
pub enum Error {
    /// The rows of the table do not all have the same number of cells.
    UnequalRows,
}

/// What is said of an error to the person who ran the program.
pub open spec fn message_text(error: Error) -> Seq<char> {
    match error {
        Error::UnequalRows => "Error: All rows must have the same number of columns"@,
    }
}

impl Error {
    /// The message for this error, on one line and without a line feed.
    pub fn message(&self) -> (text: String)
        ensures
            text@ == message_text(*self),
    {
        match self {
            Error::UnequalRows => String::from_str(
                "Error: All rows must have the same number of columns",
            ),
        }
    }

    /// The status with which a process that met this error ends.
    pub fn exit_code(&self) -> (code: i32)
        ensures
            code == 1,
    {
        1
    }
}

} // verus!
