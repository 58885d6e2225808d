//! What can stop a run.

use vstd::prelude::*;
use vstd::string::StringExecFns;

verus! {

/// What can stop a run.
#[derive(Debug)]
pub enum Error {
    /// A token of the list of hidden columns is no column index: it is no
    /// number, or it is 0. Columns are counted from 1.
    UnknownColumnIndex(String),
    /// The pattern that finds repeated commas in a list was refused.
    ListPattern,
}

impl Error {
    /// The line that reports this error.
    pub open spec fn message_of(self) -> Seq<char> {
        match self {
            Error::UnknownColumnIndex(token) => "ERROR: Unknown column index ("@ + token@ + ")"@,
            Error::ListPattern => "ERROR: Lists cannot be read"@,
        }
    }

    /// The status with which a process that met this error ends.
    pub open spec fn exit_code_of(self) -> i32 {
        1
    }

    /// The line that reports this error.
    pub fn message(&self) -> (line: String)
        ensures
            line@ == self.message_of(),
    {
        match self {
            Error::UnknownColumnIndex(token) => {
                let mut line = String::from_str("ERROR: Unknown column index (");
                line.append(token.as_str());
                line.append(")");
                line
            },
            Error::ListPattern => String::from_str("ERROR: Lists cannot be read"),
        }
    }

    /// The status with which a process that met this error ends.
    pub fn exit_code(&self) -> (code: i32)
        ensures
            code == self.exit_code_of(),
    {
        1
    }
}

} // verus!
