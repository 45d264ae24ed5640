//! The errors that the library reports.

use vstd::prelude::*;

verus! {

/// What can go wrong while listing a directory or editing a description.
#[derive(Debug)]
pub enum LsiError {
    /// The entry has no description.
    DescriptionNotFound,
    /// The path does not exist or cannot be read.
    PathNotFound,
    /// The listing could not be shown; the text says why.
    FailedDisplay(String),
    /// The editor could not be started; the text says why.
    FailedLaunchEditor(String),
    /// The path is malformed.
    InvalidPath,
    /// A file operation failed; the text says which.
    FileOperationFailed(String),
    /// The named resource may not be accessed.
    PermissionDenied(String),
    /// Reading or writing failed; the text is the system's message.
    IoError(String),
}

/// The message that belongs to an error.
pub open spec fn message_of(error: LsiError) -> Seq<char> {
    match error {
        LsiError::DescriptionNotFound => "Description not found for the specified path"@,
        LsiError::PathNotFound =>
            "Path not found: The specified path does not exist or is inaccessible"@,
        LsiError::FailedDisplay(why) => "Failed to display output: "@ + why@,
        LsiError::FailedLaunchEditor(why) => "Failed to launch editor: "@ + why@,
        LsiError::InvalidPath =>
            "Invalid path format: The path contains invalid characters or is malformed"@,
        LsiError::FileOperationFailed(why) => "File operation failed: "@ + why@,
        LsiError::PermissionDenied(what) =>
            "Permission denied: Insufficient permissions to access "@ + what@,
        LsiError::IoError(why) => "I/O error: "@ + why@,
    }
}

impl LsiError {
    /// The error's message for the user.
    pub fn message(&self) -> (text: String)
        ensures
            text@ == message_of(*self),
    {
        match self {
            LsiError::DescriptionNotFound => String::from_str(
                "Description not found for the specified path",
            ),
            LsiError::PathNotFound => String::from_str(
                "Path not found: The specified path does not exist or is inaccessible",
            ),
            LsiError::FailedDisplay(why) => String::from_str("Failed to display output: ").concat(
                why.as_str(),
            ),
            LsiError::FailedLaunchEditor(why) => String::from_str(
                "Failed to launch editor: ",
            ).concat(why.as_str()),
            LsiError::InvalidPath => String::from_str(
                "Invalid path format: The path contains invalid characters or is malformed",
            ),
            LsiError::FileOperationFailed(why) => String::from_str(
                "File operation failed: ",
            ).concat(why.as_str()),
            LsiError::PermissionDenied(what) => String::from_str(
                "Permission denied: Insufficient permissions to access ",
            ).concat(what.as_str()),
            LsiError::IoError(why) => String::from_str("I/O error: ").concat(why.as_str()),
        }
    }
}

} // verus!
