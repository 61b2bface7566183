//! Project-root discovery without I/O of its own.
//!
//! The crate decides which directories are project roots from evidence that a
//! caller gathers: marker files, `.git` directories and answers to questions
//! about the file system. Every decision is a verified function; the caller
//! performs the searches and the file-system probes that those functions ask
//! for.
//!
//! A run goes through these modules:
//!
//! - [`commands`] describes the two searches and sorts out what they find;
//! - [`marker`] tells the category of a marker file from its name;
//! - [`resolver`] climbs from a marker's directory to the root of its
//!   project, one [`probe`] at a time, using [`workspace`] to tell a
//!   workspace root and [`cache`] to remember what it found;
//! - [`projects`] holds the discovered roots and the rule by which a root
//!   enters them;
//! - [`finder`] ties these together for one run.
//!
//! [`rules`] says which root a marker has as a function of the file system,
//! and [`soundness`] proves that the climb finds it. [`run`] says what a
//! whole run leaves and returns, in whatever order its scans go.

pub mod cache;
pub mod commands;
pub mod config;
pub mod dependencies;
pub mod errors;
pub mod finder;
pub mod marker;
pub mod order;
pub mod path;
pub mod probe;
pub mod projects;
pub mod resolver;
pub mod rules;
pub mod run;
pub mod soundness;
pub mod workspace;
