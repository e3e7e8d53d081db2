//! Failure kinds of the tool and their mapping to process exit codes.

use vstd::prelude::*;

verus! {

/// Everything that can go wrong while orchestrating worktrees.
///
/// `Cancelled` records a user-initiated abort of an interactive step; it is
/// not an error and must terminate the process with a success exit code.
#[derive(PartialEq, Eq, Structural, Clone, Copy, Debug)]
pub enum WtError {
    /// The current directory is not inside a recognized repository.
    NotInRepository,
    /// The worktree inventory query could not be executed.
    QueryError,
    /// The user token matched no worktree.
    ResolveNotFound,
    /// The user cancelled an interactive prompt; always exit code 0.
    Cancelled,
    /// A creation target (directory) already exists.
    PathExists,
    /// An underlying version-control invocation returned non-zero.
    CommandFailed,
}

impl WtError {
    /// The one-line description reported for this failure kind.
    pub open spec fn spec_message(self) -> Seq<char> {
        match self {
            WtError::NotInRepository => "Not in a git repository"@,
            WtError::QueryError => "Failed to query worktrees"@,
            WtError::ResolveNotFound => "Worktree not found"@,
            WtError::Cancelled => "Cancelled."@,
            WtError::PathExists => "Directory already exists"@,
            WtError::CommandFailed => "Command failed"@,
        }
    }

    /// Human-readable message for this failure kind.
    pub fn message(&self) -> (m: String)
        ensures
            m@ == self.spec_message(),
    {
        match self {
            WtError::NotInRepository => String::from_str("Not in a git repository"),
            WtError::QueryError => String::from_str("Failed to query worktrees"),
            WtError::ResolveNotFound => String::from_str("Worktree not found"),
            WtError::Cancelled => String::from_str("Cancelled."),
            WtError::PathExists => String::from_str("Directory already exists"),
            WtError::CommandFailed => String::from_str("Command failed"),
        }
    }

    /// Exit code policy: a user cancellation is a clean termination (0),
    /// every reported error exits with 1; no other codes are used.
    pub fn exit_code(&self) -> (c: i32)
        ensures
            c == (if self is Cancelled {
                0int
            } else {
                1int
            }),
    {
        if matches!(self, WtError::Cancelled) {
            0
        } else {
            1
        }
    }
}

} // verus!
