//! Hierarchical, bitmask-based permission scopes.
//!
//! A [`scope::Scope`] owns named single-bit [`permission::Permission`]s and
//! child scopes, aggregates its granted bits into one integer that stays
//! within the 53-bit safe-integer ceiling, and collapses to / expands from a
//! compact tuple snapshot ([`scope::ScopeTuple`]) for storage or transfer.

pub mod common;
pub mod permission;
pub mod scope;
