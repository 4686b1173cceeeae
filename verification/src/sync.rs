//! Synchronising a content store with a remote: which files take part, the manifests
//! that list them, verified transfer, refs and the push lock.

pub mod fetch;
pub mod layout;
pub mod local;
pub mod lock;
pub mod manifest;
pub mod refs;
pub mod roundtrip;
pub mod runs;
pub mod transfer;
pub mod world;
