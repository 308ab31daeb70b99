//! A versioned, cryptographically-verifiable key/value view over ledger
//! account state.
//!
//! The crate models the state query protocol of a chain node: an addressing
//! scheme that maps (account, resource-or-table key) pairs to tree leaves, a
//! Merkle-authenticated store retaining one immutable tree per committed
//! root, proof structures that let a remote caller check a returned value
//! against a known root, and a request/response dispatcher in which every
//! request kind yields exactly one response kind.

pub mod access_path;
pub mod account_state;
pub mod bytes;
pub mod db;
pub mod hash;
pub mod resource;
pub mod service;
pub mod state_proof;
pub mod tree;
