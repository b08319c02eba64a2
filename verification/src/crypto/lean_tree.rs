//! The lean Merkle tree as a mathematical object.
//!
//! Level 0 holds the leaves. Each higher level holds one node per pair of the level below:
//! the hash of the pair, or, where the last left node has no right sibling, that left node
//! itself. The root is the single node of the first level that holds one node.

use crate::crypto::poseidon::spec_hash_two;
use vstd::arithmetic::div_mod::lemma_basic_div;
use vstd::arithmetic::div_mod::lemma_div_denominator;
use vstd::arithmetic::div_mod::lemma_div_is_ordered;
use vstd::arithmetic::div_mod::lemma_div_plus_one;
use vstd::arithmetic::power2::lemma2_to64;
use vstd::arithmetic::power2::lemma_pow2_pos;
use vstd::arithmetic::power2::lemma_pow2_unfold;
use vstd::arithmetic::power2::pow2;
use vstd::prelude::*;

verus! {

/// Number of nodes on `level` of a tree of `size` leaves.
pub open spec fn level_len(size: nat, level: nat) -> nat
    decreases level,
{
    if level == 0 {
        size
    } else {
        (level_len(size, (level - 1) as nat) + 1) / 2
    }
}

/// The node at `index` on `level` of the tree over `leaves`.
pub open spec fn lean_node(leaves: Seq<Seq<u8>>, level: nat, index: nat) -> Seq<u8>
    decreases level,
{
    if level == 0 {
        leaves[index as int]
    } else {
        let left = lean_node(leaves, (level - 1) as nat, 2 * index);
        if 2 * index + 1 < level_len(leaves.len(), (level - 1) as nat) {
            spec_hash_two(left, lean_node(leaves, (level - 1) as nat, 2 * index + 1))
        } else {
            left
        }
    }
}

/// Depth of a tree of `size` leaves: the least `d` with `size <= 2^d`.
pub open spec fn lean_depth(size: nat) -> nat
    decreases size,
{
    if size <= 1 {
        0
    } else {
        1 + lean_depth((size + 1) / 2)
    }
}

/// Root of the tree over `leaves`, of which there is at least one.
pub open spec fn lean_root(leaves: Seq<Seq<u8>>) -> Seq<u8> {
    lean_node(leaves, lean_depth(leaves.len()), 0)
}

/// Halving a quotient by a power of two gives the quotient by the next power.
pub proof fn lemma_div_pow2_step(n: nat, level: nat)
    ensures
        (n / pow2(level)) / 2 == n / pow2(level + 1),
        pow2(level) > 0,
        pow2(level + 1) == 2 * pow2(level),
{
    lemma_pow2_pos(level);
    lemma_pow2_unfold(level + 1);
    lemma_div_denominator(n as int, pow2(level) as int, 2);
    assert(pow2(level) * 2 == pow2(level + 1));
}

/// One more leaf raises a quotient by a power of two by one at most.
pub proof fn lemma_div_pow2_succ(n: nat, level: nat)
    ensures
        n / pow2(level) <= (n + 1) / pow2(level) <= n / pow2(level) + 1,
{
    lemma_pow2_pos(level);
    let p = pow2(level) as int;
    let m = n as int;
    lemma_div_is_ordered(m, m + 1, p);
    lemma_div_is_ordered(m + 1, m + p, p);
    lemma_div_plus_one(m, p);
}

/// A level of a tree with one leaf more than `n` has one node more than there are whole
/// blocks of `2^level` leaves among the first `n`.
pub proof fn lemma_level_len_succ(n: nat, level: nat)
    ensures
        level_len(n + 1, level) == n / pow2(level) + 1,
    decreases level,
{
    if level == 0 {
        lemma2_to64();
    } else {
        lemma_level_len_succ(n, (level - 1) as nat);
        lemma_div_pow2_step(n, (level - 1) as nat);
    }
}

/// A level grows by one node at most when a leaf is added, and is never shorter than the
/// number of whole blocks of `2^level` leaves.
pub proof fn lemma_level_len_bounds(n: nat, level: nat)
    ensures
        level_len(n, level) <= level_len(n + 1, level) <= level_len(n, level) + 1,
        n / pow2(level) <= level_len(n, level),
        n >= 1 ==> level_len(n, level) >= 1,
        n == 0 ==> level_len(n, level) == 0,
    decreases level,
{
    lemma_pow2_pos(level);
    if n == 0 {
        if level > 0 {
            lemma_level_len_bounds(n, (level - 1) as nat);
        }
        lemma_basic_div(0, pow2(level) as int);
        lemma_level_len_succ(0, level);
    } else {
        lemma_level_len_succ(n, level);
        lemma_level_len_succ((n - 1) as nat, level);
        lemma_div_pow2_succ((n - 1) as nat, level);
    }
}

/// `2^33` as a number.
pub proof fn lemma_pow2_33()
    ensures
        pow2(33) == 0x2_0000_0000,
{
    lemma2_to64();
    lemma_pow2_unfold(33);
}

/// The depth is the one `d` with `2^(d-1) < size <= 2^d`.
pub proof fn lemma_depth_unique(size: nat, depth: nat)
    requires
        size <= pow2(depth),
        depth > 0 ==> pow2((depth - 1) as nat) < size,
    ensures
        depth == lean_depth(size),
    decreases depth,
{
    lemma2_to64();
    if depth == 0 {
    } else {
        lemma_pow2_unfold(depth);
        lemma_pow2_pos((depth - 1) as nat);
        if depth > 1 {
            lemma_pow2_unfold((depth - 1) as nat);
        }
        lemma_depth_unique((size + 1) / 2, (depth - 1) as nat);
    }
}

/// A node whose block of leaves was complete before a leaf was added is not changed by
/// the addition.
pub proof fn lemma_node_stable(leaves: Seq<Seq<u8>>, leaf: Seq<u8>, level: nat, index: nat)
    requires
        index < leaves.len() / pow2(level),
    ensures
        lean_node(leaves.push(leaf), level, index) == lean_node(leaves, level, index),
    decreases level,
{
    let n = leaves.len();
    if level == 0 {
        lemma2_to64();
    } else {
        let below = (level - 1) as nat;
        lemma_div_pow2_step(n, below);
        lemma_level_len_bounds(n, below);
        lemma_node_stable(leaves, leaf, below, 2 * index);
        lemma_node_stable(leaves, leaf, below, 2 * index + 1);
        assert(leaves.push(leaf).len() == n + 1);
    }
}

} // verus!
