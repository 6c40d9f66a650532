//! A cross-language scanner for annotation comments (TODO, FIXME, HACK, BUG,
//! XXX and custom tags) with structured metadata extraction, an AST-backed
//! precision pass, and an incremental fingerprint cache.
//!
//! The pipeline lives under [`scanner`]: a fixed language registry, the
//! lexical candidate extractor with its comment-state machine, the
//! tree-sitter-backed precision verifier, the incremental per-file step
//! over the [`cache`], and the aggregation of per-file results into a
//! sorted [`model::ScanResult`]. Around it sit item [`filter`]ing,
//! [`policy`] checks, git-derived enrichment under [`git`], and the
//! [`output`] formatters. Reading files, walking trees and running git are
//! left to callers, which hand this crate plain text.
#![verifier::loop_isolation(false)]

pub mod cache;
pub mod config;
pub mod discovery;
pub mod error;
pub mod filter;
pub mod git;
pub mod policy;
pub mod model;
pub mod output;
pub mod scanner;
pub mod strutil;

use vstd::prelude::*;

verus! {

} // verus!
