//! Dependency-status reporting for RPM-based distributions.
//!
//! The crate models a resolved dependency graph, classifies every package
//! against the versions available in a distribution package index, and
//! renders the annotated graph as a tree.

use vstd::prelude::*;

pub mod args;
pub mod db;
pub mod fedora;
pub mod graph;
pub mod metadata;
mod sqlite;
mod text;
pub mod tree;
pub mod version;

verus! {

/// The failures the library reports.
///
/// Version-parse failures of individual index candidates are recoverable and
/// never surface here; all other failures abort the operation they occur in.
#[derive(Debug)]
pub enum RpmError {
    /// The resolved metadata is malformed or inconsistent.
    GraphBuild(String),
    /// The package-index connection could not be opened.
    IndexUnavailable(String),
    /// An index query or row decoding failed.
    Query(String),
    /// A version or requirement string failed to parse.
    VersionParse(String),
    /// A render format string holds an unknown substitution token.
    FormatTemplate(String),
    /// A worker reported a fatal error during annotation.
    WorkerFailed(String),
}

impl RpmError {
    /// An equal copy of the error.
    pub fn clone_value(&self) -> (r: RpmError)
        ensures
            r == *self,
    {
        match self {
            RpmError::GraphBuild(s) => RpmError::GraphBuild(s.clone()),
            RpmError::IndexUnavailable(s) => RpmError::IndexUnavailable(s.clone()),
            RpmError::Query(s) => RpmError::Query(s.clone()),
            RpmError::VersionParse(s) => RpmError::VersionParse(s.clone()),
            RpmError::FormatTemplate(s) => RpmError::FormatTemplate(s.clone()),
            RpmError::WorkerFailed(s) => RpmError::WorkerFailed(s.clone()),
        }
    }

    /// The failure written out for reports.
    pub fn text(&self) -> (r: String)
        ensures
            r@ == spec_error_text(*self),
    {
        let mut r: String;
        match self {
            RpmError::GraphBuild(s) => {
                r = String::from_str("could not build the dependency graph: ");
                r.append(s.as_str());
            },
            RpmError::IndexUnavailable(s) => {
                r = String::from_str("could not open the package index: ");
                r.append(s.as_str());
            },
            RpmError::Query(s) => {
                r = String::from_str("package index query failed: ");
                r.append(s.as_str());
            },
            RpmError::VersionParse(s) => {
                r = String::from_str("version string did not parse: ");
                r.append(s.as_str());
            },
            RpmError::FormatTemplate(s) => {
                r = String::from_str("unknown token in format string: ");
                r.append(s.as_str());
            },
            RpmError::WorkerFailed(s) => {
                r = String::from_str("a worker failed: ");
                r.append(s.as_str());
            },
        }
        r
    }
}

/// The report text for each failure.
pub open spec fn spec_error_text(e: RpmError) -> Seq<char> {
    match e {
        RpmError::GraphBuild(s) => "could not build the dependency graph: "@ + s@,
        RpmError::IndexUnavailable(s) => "could not open the package index: "@ + s@,
        RpmError::Query(s) => "package index query failed: "@ + s@,
        RpmError::VersionParse(s) => "version string did not parse: "@ + s@,
        RpmError::FormatTemplate(s) => "unknown token in format string: "@ + s@,
        RpmError::WorkerFailed(s) => "a worker failed: "@ + s@,
    }
}

} // verus!
