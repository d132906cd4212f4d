//! The library's outcome kinds. Three disjoint outcomes run through every
//! interactive component: a system-level failure, a user cancellation, and a
//! success (whose value may be empty). Callers must be able to tell them
//! apart; a cancellation is never an error.

use vstd::prelude::*;

use crate::text::concat_str;

verus! {

/// A failure of the system around the library: the terminal, the file
/// system, the network, or a spawned process.
#[derive(Debug, Clone)]
pub enum AppError {
    Network(String),
    Sync(String),
    System(String),
    Io(String),
}

/// The message text of each error kind: the kind's prefix followed by the
/// carried detail.
pub open spec fn app_error_message(e: AppError) -> Seq<char> {
    match e {
        AppError::Network(m) => "Network error: "@ + m@,
        AppError::Sync(m) => "Sync error: "@ + m@,
        AppError::System(m) => "System error: "@ + m@,
        AppError::Io(m) => "IO error: "@ + m@,
    }
}

impl AppError {
    /// The human-readable message.
    pub fn message(&self) -> (r: String)
        ensures
            r@ == app_error_message(*self),
    {
        match self {
            AppError::Network(m) => concat_str("Network error: ", m.as_str()),
            AppError::Sync(m) => concat_str("Sync error: ", m.as_str()),
            AppError::System(m) => concat_str("System error: ", m.as_str()),
            AppError::Io(m) => concat_str("IO error: ", m.as_str()),
        }
    }
}

/// How a finished command handler reports its outcome to the user.
#[derive(Debug)]
pub enum FlowResult {
    /// The named item was searched for and not found.
    NotFound { item_type: String, search_term: String },
    /// There was nothing of this kind to show.
    EmptyList { item_type: String },
    /// The user cancelled; a normal outcome, not a failure.
    Cancelled(String),
    /// The operation succeeded with this message.
    Success(String),
}

/// An interactive session's failure modes: a system error, distinct from the
/// user cancelling.
#[derive(Debug)]
pub enum InteractiveError {
    /// Terminal or IO failure; carries the underlying message.
    SystemError(String),
    /// The user cancelled the operation.
    Cancelled,
}

impl InteractiveError {
    /// The human-readable message.
    pub fn message(&self) -> (r: String)
        ensures
            self matches InteractiveError::SystemError(m) ==> r@ == "System error: "@ + m@,
            self is Cancelled ==> r@ == "Operation cancelled by user"@,
    {
        match self {
            InteractiveError::SystemError(m) => concat_str("System error: ", m.as_str()),
            InteractiveError::Cancelled => {
                proof {
                    reveal_strlit("");
                }
                let r = concat_str("Operation cancelled by user", "");
                proof {
                    assert(r@ =~= "Operation cancelled by user"@);
                }
                r
            },
        }
    }
}

} // verus!
