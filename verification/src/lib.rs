//! Large files in git by pointer: a local content store, remotes that are kept in step
//! with it by verified transfer, and the decisions behind the commands that do so.

pub mod cli;
pub mod commands;
pub mod config;
pub mod error;
pub mod files;
pub mod git;
pub mod hash;
pub mod keyed;
pub mod laws;
pub mod order;
pub mod paths;
pub mod pointers;
pub mod reachability;
pub mod remote;
pub mod repo;
pub mod sync;
pub mod text;
