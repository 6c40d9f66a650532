//! The crate's error type. Every failure is recoverable; scans degrade
//! rather than abort.

use vstd::prelude::*;

verus! {

/// Errors reported by the scanning and caching components.
#[derive(Debug, Clone, PartialEq, Eq)]
pub enum TodoError {
    /// A file could not be read.
    Io(String),
    /// A configuration value was malformed.
    Config(String),
    /// A git operation failed.
    Git(String),
    /// The cache store refused an operation.
    Cache(String),
    /// A file could not be scanned.
    Scan { file: String, message: String },
}

} // verus!
