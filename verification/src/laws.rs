//! Laws: what the operations of the library are for, said of what goes in and what comes out.

pub mod copying;
pub mod failures;
pub mod filter;
pub mod hashes;
pub mod local;
pub mod parts;
pub mod paths;
pub mod pointers;
pub mod publish;
pub mod pull;
pub mod push;
pub mod remotes;
pub mod reports;
pub mod repository;
pub mod store;
pub mod text;
pub mod transfer;
