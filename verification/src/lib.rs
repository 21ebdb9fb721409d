//! Directory tree synchronization engine.
//!
//! The library builds an in-memory snapshot of a source and a destination
//! hierarchy, structurally diffs the two trees by relative path, and derives
//! an ordered, policy-driven list of actions (create directory, copy file,
//! delete file, delete directory, skip) that converges the destination
//! toward the source.

pub mod adb;
pub mod args;
pub mod entry;
pub mod fs;
pub mod laws;
pub mod path;
pub mod plan;
pub mod strutil;
pub mod sync;
pub mod tree;
pub mod wire;
