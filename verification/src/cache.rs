//! The fingerprint cache: a persistent store mapping file paths to
//! (mtime, size) fingerprints and extracted items.

pub mod db;
