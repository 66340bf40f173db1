//! The ways in which carrying out one input line can fail.

use vstd::prelude::*;

verus! {

/// Why an input line did not run to a successful end.
///
/// The three cases are disjoint: a line either names no command at all,
/// names one that is not registered, or names one whose handler reported a
/// failure.
#[derive(Debug, Clone, Copy, PartialEq, Eq, Structural)]
pub enum CommandError {
    /// There was no token to take a command name from.
    Empty,
    /// The command name matches no registered command.
    NotFound,
    /// The handler of the matched command ran and reported a failure.
    ExecutionError,
}

impl CommandError {
    /// The text shown to a person for this error.
    pub open spec fn rendering(self) -> Seq<char> {
        match self {
            CommandError::Empty => "No command given"@,
            CommandError::NotFound => "Command not found"@,
            CommandError::ExecutionError => "Error while executing command"@,
        }
    }

    /// Renders the error as a human-readable sentence.
    pub fn to_string(&self) -> (text: String)
        ensures
            text@ == self.rendering(),
    {
        match self {
            CommandError::Empty => "No command given".to_string(),
            CommandError::NotFound => "Command not found".to_string(),
            CommandError::ExecutionError => "Error while executing command".to_string(),
        }
    }
}

} // verus!
