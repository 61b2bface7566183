//! What a discovery run is asked to do.

use vstd::prelude::*;

verus! {

/// The settings of one discovery run.
#[derive(Debug, Clone)]
pub struct Config {
    /// Directories to search for projects.
    pub paths: Vec<String>,
    /// How many levels below each directory the searches go.
    pub depth: usize,
    /// Whether to report progress.
    pub verbose: bool,
    /// The most results to return; zero means all of them.
    pub max_results: usize,
}

impl Config {
    /// Whether `self` is the configuration of a run without any option given:
    /// the current directory, five levels deep, quiet, every result.
    pub open spec fn is_default(&self) -> bool {
        &&& self.paths@.len() == 1
        &&& self.paths@[0]@ == "."@
        &&& self.depth == 5
        &&& !self.verbose
        &&& self.max_results == 0
    }
}

impl Default for Config {
    fn default() -> (config: Config)
        ensures
            config.is_default(),
    {
        let mut paths: Vec<String> = Vec::new();
        paths.push(".".to_owned());
        Config { paths, depth: 5, verbose: false, max_results: 0 }
    }
}

} // verus!
