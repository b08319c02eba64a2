//! Persisted state: the pool record with its two trees, and the records kept per
//! nullifier and per deposit.

pub mod layout;
pub mod lean_imt;
pub mod zero_copy;

use pinocchio::pubkey::Pubkey;
use vstd::prelude::*;

verus! {

/// A nullifier record with its flag decoded.
#[derive(Clone, Copy, Debug, PartialEq, Eq)]
pub struct NullifierState {
    pub is_spent: bool,
    pub nullifier_hash: [u8; 32],
}

/// A depositor record: who made the deposit with a given label.
#[derive(Clone, Copy, Debug, PartialEq, Eq)]
pub struct DepositorState {
    pub depositor: Pubkey,
    pub label: [u8; 32],
}

impl NullifierState {
    /// The record of a nullifier that has just been spent.
    pub fn new(nullifier_hash: [u8; 32]) -> (record: Self)
        ensures
            record.is_spent,
            record.nullifier_hash == nullifier_hash,
    {
        NullifierState { is_spent: true, nullifier_hash }
    }
}

impl DepositorState {
    /// The record of the deposit that `depositor` made under `label`.
    pub fn new(depositor: Pubkey, label: [u8; 32]) -> (record: Self)
        ensures
            record.depositor == depositor,
            record.label == label,
    {
        DepositorState { depositor, label }
    }
}

} // verus!
