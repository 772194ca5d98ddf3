//! Core library for a Python package manager front end.
//!
//! The crate has two halves. One half is the package-acquisition pipeline:
//! merging requirement and constraint sources, combining index locations,
//! deriving a hash-verification policy, selecting a build-isolation mode,
//! de-duplicating concurrent artifact preparation, and materializing prepared
//! artifacts as wheel archives with deterministic, sorted reporting. The other
//! half is the state model behind the desktop front end: tabs, notifications,
//! loaded projects, packages, environments, and Python installations.
//!
//! Everything here is verified; the surrounding I/O (network, filesystem,
//! subprocesses, rendering) lives outside the library and exchanges plain
//! values with it.

pub mod actions;
pub mod app_state;
pub mod archive;
pub mod build_isolation;
pub mod button;
pub mod display;
pub mod hash_policy;
pub mod index_merge;
pub mod loaders;
pub mod materialize;
pub mod parse;
pub mod pipeline;
pub mod prepare;
pub mod project_state;
pub mod pypi;
pub mod report;
pub mod requirements;
pub mod resolution;
pub mod state;
pub mod strutil;
pub mod textscan;

use vstd::prelude::*;
use vstd::string::StringExecFns;

verus! {

/// Error raised by the front end around the library.
pub enum GuiError {
    /// Failed to initialize the GUI framework.
    InitializationError(String),
    /// Failed to load project information.
    ProjectLoadError(String),
    /// Failed to execute a package-manager command.
    CommandError(String),
    /// Network error when fetching package information.
    NetworkError(String),
}

impl GuiError {
    /// The detail string carried by this error.
    pub fn detail(&self) -> (r: &String)
        ensures
            r@ == self.detail_spec(),
    {
        match self {
            GuiError::InitializationError(s) => s,
            GuiError::ProjectLoadError(s) => s,
            GuiError::CommandError(s) => s,
            GuiError::NetworkError(s) => s,
        }
    }

    /// The detail string, as a mathematical sequence.
    pub open spec fn detail_spec(&self) -> Seq<char> {
        match self {
            GuiError::InitializationError(s) => s@,
            GuiError::ProjectLoadError(s) => s@,
            GuiError::CommandError(s) => s@,
            GuiError::NetworkError(s) => s@,
        }
    }

    /// The rendered error message: a fixed phrase for the failure kind, then
    /// the detail.
    pub fn message(&self) -> (r: String)
        ensures
            r@ == self.message_spec(),
    {
        let mut s = match self {
            GuiError::InitializationError(_) => String::from_str("Failed to initialize GUI: "),
            GuiError::ProjectLoadError(_) => String::from_str("Failed to load project: "),
            GuiError::CommandError(_) => String::from_str("Command failed: "),
            GuiError::NetworkError(_) => String::from_str("Network error: "),
        };
        s.append(self.detail().as_str());
        s
    }

    /// The rendered error message, as a mathematical sequence.
    pub open spec fn message_spec(&self) -> Seq<char> {
        (match self {
            GuiError::InitializationError(_) => "Failed to initialize GUI: "@,
            GuiError::ProjectLoadError(_) => "Failed to load project: "@,
            GuiError::CommandError(_) => "Command failed: "@,
            GuiError::NetworkError(_) => "Network error: "@,
        }) + self.detail_spec()
    }
}

/// Result type for GUI operations.
pub type GuiResult<T> = Result<T, GuiError>;

} // verus!
