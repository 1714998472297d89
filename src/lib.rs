//! A rule-based content pipeline: glob patterns select files of a source
//! tree, and each file is either run through user-declared commands or copied
//! through unchanged.
//!
//! The library decides everything that can be decided from values: how a
//! glob pattern is compiled and matched, how rule files are read, which rule
//! governs a file, how command lines are split and their placeholders filled
//! in, and which copies, moves and process launches a build consists of.
//! Performing those steps against the file system is left to the caller.

pub mod args;
pub mod engine;
pub mod glob;
pub mod paths;
pub mod placeholder;
pub mod rules;
