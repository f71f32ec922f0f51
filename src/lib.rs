//! Finds groups of files that are likely duplicates of each other.
//!
//! Files are described by [`entry::FileEntry`] values (path and size). A key
//! is computed for each entry by one of the strategies of [`keys`] or by the
//! chunked content hash of [`content`]; [`engine`] partitions the entries by
//! key, and [`report`] renders every group with two or more members.
pub mod content;
pub mod engine;
pub mod entry;
pub mod keys;
pub mod laws;
pub mod report;
