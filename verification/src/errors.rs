//! The errors that discovery can end in.

use vstd::prelude::*;
use vstd::string::StringExecFns;

verus! {

/// Why a discovery run, or one step of it, failed.
#[derive(Debug, Clone, PartialEq, Eq)]
pub enum ProjectFinderError {
    /// A required search tool is not installed.
    DependencyNotFound(String),
    /// A search tool could not be run, or a file could not be read or matched.
    CommandExecutionFailed(String),
    /// A configured root is not an existing directory; holds the path as configured.
    PathNotFound(String),
    /// An I/O failure, by its message.
    IoError(String),
    /// Output of a search tool that is not valid UTF-8, by the decoder's message.
    Utf8Error(String),
}

/// A `ProjectFinderError` with its texts as character sequences.
pub enum ErrorModel {
    DependencyNotFound(Seq<char>),
    CommandExecutionFailed(Seq<char>),
    PathNotFound(Seq<char>),
    IoError(Seq<char>),
    Utf8Error(Seq<char>),
}

impl View for ProjectFinderError {
    type V = ErrorModel;

    open spec fn view(&self) -> ErrorModel {
        match self {
            ProjectFinderError::DependencyNotFound(s) => ErrorModel::DependencyNotFound(s@),
            ProjectFinderError::CommandExecutionFailed(s) => ErrorModel::CommandExecutionFailed(s@),
            ProjectFinderError::PathNotFound(s) => ErrorModel::PathNotFound(s@),
            ProjectFinderError::IoError(s) => ErrorModel::IoError(s@),
            ProjectFinderError::Utf8Error(s) => ErrorModel::Utf8Error(s@),
        }
    }
}

impl ErrorModel {
    /// The text shown to the user for this error.
    pub open spec fn message(self) -> Seq<char> {
        match self {
            ErrorModel::DependencyNotFound(s) => "Dependency not found: "@ + s
                + ". Please install it and try again."@,
            ErrorModel::CommandExecutionFailed(s) => "Failed to execute command: "@ + s,
            ErrorModel::PathNotFound(s) => "Path not found: "@ + s,
            ErrorModel::IoError(s) => "IO error: "@ + s,
            ErrorModel::Utf8Error(s) => "Invalid UTF-8: "@ + s,
        }
    }
}

impl ProjectFinderError {
    /// The text shown to the user for this error.
    pub fn message(&self) -> (text: String)
        ensures
            text@ == self@.message(),
    {
        match self {
            ProjectFinderError::DependencyNotFound(s) => {
                let head = String::from_str("Dependency not found: ").concat(s.as_str());
                head.concat(". Please install it and try again.")
            },
            ProjectFinderError::CommandExecutionFailed(s) => {
                String::from_str("Failed to execute command: ").concat(s.as_str())
            },
            ProjectFinderError::PathNotFound(s) => {
                String::from_str("Path not found: ").concat(s.as_str())
            },
            ProjectFinderError::IoError(s) => String::from_str("IO error: ").concat(s.as_str()),
            ProjectFinderError::Utf8Error(s) => {
                String::from_str("Invalid UTF-8: ").concat(s.as_str())
            },
        }
    }
}

} // verus!
