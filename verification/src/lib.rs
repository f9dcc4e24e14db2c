//! Line indexing, random line access and search for very large text files.
//!
//! The library works on bytes that the caller has already mapped or read:
//! it builds the index of line starts, reads line ranges back through such
//! an index, frames the stored form of an index, and searches the bytes for
//! a pattern.

pub mod lines;
pub mod loader;
pub mod models;
pub mod search;
pub mod storage;
pub mod text;
