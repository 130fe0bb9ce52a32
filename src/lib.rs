//! Authenticated data objects (PODs): a sparse Merkle tree over the Goldilocks field, the
//! statement/operation algebra with its deductive checker, the main-pod layout compiler and
//! custom predicate batches.

pub mod containers;
pub mod custom;
pub mod error;
pub mod frontend;
pub mod hash;
pub mod merkle;
pub mod operation;
pub mod pod;
pub mod statement;
pub mod value;
