//! The traditional proof algorithm as its own isolated module.
pub mod proofs;
