//! Authentication and catalog core for a server-rendered content site.
//!
//! The crate verifies the pieces with real invariants: credential hashing
//! and verification, an identity store with keyed lookups, an
//! authentication backend that classifies login outcomes, a session
//! manager with a two-tier store and two expiry policies, and a catalog
//! search engine with relevance ranking and offset pagination.

pub mod auth;
pub mod catalog;
pub mod clock;
pub mod hasher;
pub mod ids;
pub mod pagination;
pub mod seqs;
pub mod session;
pub mod text;
pub mod user;
pub mod validate;
