//! The search tool that discovery runs, and where it is installed.

use vstd::prelude::*;
use crate::errors::{ErrorModel, ProjectFinderError};

verus! {

/// The external programs that discovery needs.
#[derive(Debug, Clone)]
pub struct Dependencies {
    /// Where the `fd` binary is.
    pub fd_path: String,
}

/// What the user is told when no `fd` binary is installed.
pub open spec fn missing_fd_text() -> Seq<char> {
    "Neither 'fd' nor 'fdfind' was found. Please install fd from https://github.com/sharkdp/fd"@
}

/// Looks `name` up with `which::which`: the path of the first executable of
/// that name in the directories of `PATH`, if there is one. Nothing is claimed
/// of the answer, which depends on the environment and on what is installed.
#[verifier::external_body]
fn locate_binary(name: &str) -> (found: Option<String>) {
    match which::which(name) {
        Ok(path) => Some(path.to_string_lossy().into_owned()),
        Err(_) => None,
    }
}

impl Dependencies {
    /// The dependencies when the `fd` binary is at `fd_path`.
    pub fn new(fd_path: String) -> (deps: Self)
        ensures
            deps.fd_path == fd_path,
    {
        Self { fd_path }
    }

    /// The dependencies, given where a lookup found `fd` and where it found
    /// `fdfind`. `fd` is preferred; with neither, the dependency is missing.
    pub fn from_lookup(fd: Option<String>, fdfind: Option<String>) -> (r: Result<
        Self,
        ProjectFinderError,
    >)
        ensures
            match r {
                Ok(deps) => match fd {
                    Some(path) => deps.fd_path == path,
                    None => fdfind == Some(deps.fd_path),
                },
                Err(e) => fd is None && fdfind is None && e@ == ErrorModel::DependencyNotFound(
                    missing_fd_text(),
                ),
            },
    {
        match fd {
            Some(path) => Ok(Self::new(path)),
            None => match fdfind {
                Some(path) => Ok(Self::new(path)),
                None => Err(
                    ProjectFinderError::DependencyNotFound(
                        "Neither 'fd' nor 'fdfind' was found. Please install fd from https://github.com/sharkdp/fd".to_owned(),
                    ),
                ),
            },
        }
    }

    /// Looks for the `fd` binary under its two names and returns the
    /// dependencies with the first that is installed. `fdfind` is looked up
    /// only when `fd` is not found.
    pub fn check() -> (r: Result<Self, ProjectFinderError>)
        ensures
            r matches Err(e) ==> e@ == ErrorModel::DependencyNotFound(missing_fd_text()),
    {
        let fd = locate_binary("fd");
        let fdfind = if fd.is_none() {
            locate_binary("fdfind")
        } else {
            None
        };
        Self::from_lookup(fd, fdfind)
    }
}

} // verus!
