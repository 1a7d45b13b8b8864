//! A persistent multi-tenant sparse Merkle tree engine.
//!
//! The engine keeps many independent height-256 sparse Merkle trees in one
//! key-value database, one tree per column. It exposes leaf updates, root
//! queries, Merkle inclusion proofs, compiled byte-blob proofs for computing
//! future roots offline, and a stateless proof verifier.

pub mod cli;
pub mod codec;
pub mod compiled;
pub mod contract;
pub mod db;
pub mod error;
pub mod h256;
pub mod keccak;
pub mod kv;
pub mod laws;
pub mod merge;
pub mod parity_apis;
pub mod req;
pub mod store;
pub mod student;
pub mod tree;
pub mod verify;

pub use h256::H256;
pub use keccak::Keccak256Hasher;
pub use kv::{SMTKey, SMTValue};
pub use merge::{BranchKey, BranchNode, MergeValue};
pub use parity_apis::MultiSMTParityStore;
pub use student::Student;
pub use verify::Proof;
