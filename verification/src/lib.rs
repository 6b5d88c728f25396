//! Core of a DR-value log scanner.
//!
//! A scan walks a directory tree for plain-text log files, extracts a small
//! integer quality metric (the "DR value") from each file's content, and
//! presents the outcomes as a deterministically ordered list of records.
//! This crate holds the verified logic of that pipeline: the extension
//! filter that discovery applies, the content extractor, the record and
//! state model, the total ordering over result records, and the collector
//! that tracks progress while workers deliver results.  The surrounding
//! process concerns (directory walking, file reads, threads, presentation)
//! live outside the crate and only exchange plain values with it.

pub mod discovery;
pub mod extract;
pub mod order;
pub mod record;
pub mod scan;
pub mod state;
