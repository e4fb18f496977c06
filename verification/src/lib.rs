//! Discovery, deduplication and batching of debug-symbol artifacts.
//!
//! The crate walks a pre-listed filesystem tree (plain files and the entries
//! of zip archives found along the way), extracts the unique identifiers
//! embedded in each candidate binary, deduplicates by identifier, and hands
//! the caller bounded-size batches of match records.  A companion packaging
//! module writes a batch back out as a zip archive.

pub mod ident;
pub mod iter;
pub mod laws;
pub mod missing;
pub mod pack;
pub mod record;
pub mod scan;
