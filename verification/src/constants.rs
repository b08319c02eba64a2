//! Protocol constants.

use vstd::prelude::*;

verus! {

/// Greatest depth a tree can reach.
pub const MAX_TREE_DEPTH: u8 = 32;

/// Number of recent state roots that stay redeemable.
pub const ROOT_HISTORY_SIZE: usize = 64;

/// Number of side nodes a tree keeps: one per level, the root's level included.
pub const SIDE_NODES: usize = 33;

/// Number of leaves a tree of the greatest depth can hold.
pub const MAX_LEAVES: u64 = 0x1_0000_0000;

/// Order of the BN254 scalar field.
pub open spec fn snark_scalar_field() -> nat {
    21888242871839275222246405745257275088548364400416034343698204186575808495617nat
}

} // verus!
