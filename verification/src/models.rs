//! The persisted entities of the bot — linked identities, communities
//! and linking challenges — together with in-memory stores that give
//! the key-value collaborator's operations exact meanings: per-key
//! upsert, lookup, and atomic take.

pub mod challenge;
pub mod guild;
pub mod user;
