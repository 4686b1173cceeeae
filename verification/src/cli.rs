//! Plain helpers of the command-line tool: a single configuration file, git by its
//! command, and copying what is missing without a manifest.

pub mod config;
pub mod repo;
pub mod sync;
