//! The questions that discovery puts to the file system, and a model of what answers them.

use vstd::prelude::*;
use crate::errors::{ErrorModel, ProjectFinderError};
use crate::path::{PathModel, ProjectPath};

verus! {

/// A question about the file system. The library asks; its caller finds the
/// answer and hands it back as a `Result<bool, ProjectFinderError>`.
#[derive(Debug, Clone, PartialEq, Eq)]
pub enum Probe {
    /// Is there anything at this path?
    Exists(ProjectPath),
    /// Is this path a directory?
    IsDir(ProjectPath),
    /// Does the content of the file at this path match this regular
    /// expression? Reading the file may fail, and so may the expression.
    Matches(ProjectPath, String),
}

/// A `Probe` over path and text models.
pub enum ProbeModel {
    Exists(PathModel),
    IsDir(PathModel),
    Matches(PathModel, Seq<char>),
}

impl View for Probe {
    type V = ProbeModel;

    open spec fn view(&self) -> ProbeModel {
        match self {
            Probe::Exists(path) => ProbeModel::Exists(path@),
            Probe::IsDir(path) => ProbeModel::IsDir(path@),
            Probe::Matches(path, pattern) => ProbeModel::Matches(path@, pattern@),
        }
    }
}

/// An answer to a probe, with the error as a model.
pub open spec fn answer_model(answer: Result<bool, ProjectFinderError>) -> Result<
    bool,
    ErrorModel,
> {
    match answer {
        Ok(yes) => Ok(yes),
        Err(e) => Err(e@),
    }
}

/// A file system as discovery sees it: the answer to every probe.
pub struct FileSystem {
    pub reply: spec_fn(ProbeModel) -> Result<bool, ErrorModel>,
}

impl FileSystem {
    /// The answer that this file system gives to `probe`.
    pub open spec fn ask(self, probe: ProbeModel) -> Result<bool, ErrorModel> {
        (self.reply)(probe)
    }

    /// Whether anything is at `path`.
    pub open spec fn has_entry(self, path: PathModel) -> Result<bool, ErrorModel> {
        self.ask(ProbeModel::Exists(path))
    }

    /// Whether `path` is a directory.
    pub open spec fn has_dir(self, path: PathModel) -> Result<bool, ErrorModel> {
        self.ask(ProbeModel::IsDir(path))
    }

    /// Whether the content of the file at `path` matches `pattern`.
    pub open spec fn content_matches(self, path: PathModel, pattern: Seq<char>) -> Result<
        bool,
        ErrorModel,
    > {
        self.ask(ProbeModel::Matches(path, pattern))
    }
}

} // verus!
