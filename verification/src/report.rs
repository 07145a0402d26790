//! How a run that failed is reported.

use vstd::prelude::*;
use vstd::string::StringExecFns;

verus! {

/// The status with which the process ends after a failure, whichever it was.
pub const EXIT_FAILURE: i32 = 1;

/// Why a run ended without a search.
pub enum Failure {
    /// The query or the file path was not given; the message says so.
    MissingArgument(&'static str),
    /// The file could not be read; the text describes the cause.
    IoFailure(String),
}

impl Failure {
    /// The line that reports this failure.
    pub open spec fn diagnostic_of(self) -> Seq<char> {
        match self {
            Failure::MissingArgument(message) => "Problem parsing arguments: "@ + message@,
            Failure::IoFailure(cause) => "Application error: "@ + cause@,
        }
    }

    /// The line that reports this failure, without a line feed.
    pub fn diagnostic(&self) -> (line: String)
        ensures
            line@ == self.diagnostic_of(),
    {
        match self {
            Failure::MissingArgument(message) => {
                let mut line = "Problem parsing arguments: ".to_owned();
                line.append(message);
                line
            },
            Failure::IoFailure(cause) => {
                let mut line = "Application error: ".to_owned();
                line.append(cause.as_str());
                line
            },
        }
    }
}

} // verus!
