//! A read-only view over a directory tree of log files, some of them
//! gzip-compressed (`.gz`) or packed as gzip-compressed tar archives
//! (`.tar.gz`). The library decides how entries are classified, ordered,
//! rendered and resolved; the caller performs the filesystem reads.

pub mod archive;
pub mod names;
pub mod render;
pub mod resolve;
pub mod entry;
pub mod listing;
