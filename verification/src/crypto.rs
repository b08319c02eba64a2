//! Hash derivations, the definition of the lean Merkle tree, and the replica tree that
//! builds inclusion proofs.

pub mod lean_tree;
pub mod merkle_tree;
pub mod poseidon;
