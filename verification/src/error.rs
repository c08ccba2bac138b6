//! The errors that the application reports to its front end.

use vstd::prelude::*;

verus! {

/// What was being done to a file when an error came up.
#[derive(Debug, Clone, Copy, PartialEq, Eq, Structural)]
pub enum FileAction {
    Read,
    Write,
    Create,
}

/// An error of the application. Every variant holds the underlying error as
/// text, so that it can be handed on.
#[derive(Debug, PartialEq, Eq)]
pub enum AppError {
    /// Working on the configuration file failed.
    Config { action: FileAction, path: String, message: String },
    /// A path could not be resolved; holds the path and the reason.
    Resolve(String, String),
    /// The database reported an error.
    DB(String),
    /// The file system reported an error.
    File(String),
    /// A lock could not be taken.
    Mutex(String),
    /// Access was not granted.
    Auth(String),
}

} // verus!
