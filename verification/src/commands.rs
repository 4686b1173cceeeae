//! The commands: which remote is meant, what is written where, and the decisions that
//! lie between one piece of outside work and the next.

pub mod naming;
pub mod pull;
pub mod push;
pub mod remotes;
pub mod reports;
pub mod setup;
pub mod smudge;
pub mod track;
pub mod transactions;
pub mod upkeep;
