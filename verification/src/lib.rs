//! Verified core of a web-archive reconnaissance tool.
//!
//! Given one or more targets, the tool lists archived URLs (optionally
//! checking their current liveness), reconstructs the historical set of
//! crawl paths from archived `robots.txt` snapshots, or concatenates the
//! content of every archived snapshot of a URL.  This crate holds the
//! verified logic: record parsing, filtering, query building, the fetch
//! scheduler's state machine, and the aggregators.  The unverified binary
//! around it performs the HTTP calls and the terminal/file I/O.

use vstd::prelude::*;

pub mod aggregate;
pub mod config;
pub mod filter;
pub mod query;
pub mod orchestrate;
pub mod records;
pub mod scheduler;
pub mod text;

verus! {

/// An error that aborts a single target's pipeline; sibling targets are
/// unaffected.
#[derive(Debug)]
pub enum PipelineError {
    /// A snapshot-listing line did not split into exactly two tokens;
    /// the offending line is carried along.
    Parse(String),
    /// An externally supplied value (a status code) was not a number in
    /// range; the offending token is carried along.
    Config(String),
}

} // verus!
