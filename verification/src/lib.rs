//! A minimal verifiable delay function built on a SHA-256 hash chain.
//!
//! Producing a proof takes a prescribed number of strictly sequential hash
//! evaluations; checking one is split into contiguous chunks whose links are
//! re-derived independently of one another, so that a caller may hand each
//! chunk to a worker of its own.

pub mod chain;
pub mod error;
pub mod hash;
pub mod laws;
pub mod partition;
pub mod prover;
pub mod verification;
