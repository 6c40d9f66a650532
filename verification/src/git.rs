//! Git-derived enrichment: parsing `git blame --porcelain` output, the
//! date arithmetic it needs, and the set comparison behind a diff of
//! annotations between two revisions. Running git itself is a caller's
//! concern; everything here works on plain text handed in.

pub mod blame;
pub mod diff;
