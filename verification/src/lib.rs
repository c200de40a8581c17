//! A single-process, in-memory key/value store driven by a line-oriented
//! command protocol, with every mutation snapshotted to a JSON object text.
//!
//! The crate verifies the command engine: the store itself, the per-command
//! execution policy, the fan-out of one command across several execution
//! units, and the snapshot-persistence protocol (write a sibling temporary
//! file, remove the old primary, rename the temporary into place).  Reading
//! lines, spawning threads and touching the real file system stay outside the
//! library; callers hand in plain strings and perform the file steps that the
//! snapshot model prescribes.

pub mod config;
pub mod jobs;
pub mod laws;
pub mod memory;
pub mod parser;
pub mod persistence;
pub mod store;
