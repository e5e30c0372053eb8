//! A virtual-filesystem view over a zip archive.
//!
//! An archive stores a flat, unordered collection of slash-separated entry
//! paths and no directory records.  This library decodes such an archive
//! once, then presents it as a tree: files are the stored entries,
//! directories are derived from shared path prefixes, and listings are
//! computed on demand.  The archive is read-only; write-shaped operations
//! always report `Unsupported`.

pub mod index;
pub mod laws;
pub mod paths;
pub mod vfs;
