//! The lean incremental Merkle tree and the pool record built on it.
//!
//! The tree is append-only and grows in depth as leaves arrive. It keeps one side node per
//! level: the node last seen at an even position on that level. A left node without a right
//! sibling is its own parent, so no padding value is ever hashed.

use crate::constants::MAX_LEAVES;
use crate::constants::MAX_TREE_DEPTH;
use crate::constants::ROOT_HISTORY_SIZE;
use crate::constants::SIDE_NODES;
use crate::crypto::lean_tree::lean_depth;
use crate::crypto::lean_tree::lean_node;
use crate::crypto::lean_tree::lean_root;
use crate::crypto::lean_tree::lemma_depth_unique;
use crate::crypto::lean_tree::lemma_div_pow2_step;
use crate::crypto::lean_tree::lemma_div_pow2_succ;
use crate::crypto::lean_tree::lemma_level_len_succ;
use crate::crypto::lean_tree::lemma_node_stable;
use crate::crypto::lean_tree::lemma_pow2_33;
use crate::crypto::lean_tree::level_len;
use crate::crypto::poseidon::digest_views;
use crate::crypto::poseidon::hash_two;
use crate::crypto::poseidon::keccak256;
use crate::crypto::poseidon::keccak256_digest;
use crate::crypto::poseidon::spec_hash_two;
use crate::crypto::poseidon::zero_digest;
use crate::error::PoolError;
use crate::utils::append_bytes;
use crate::utils::arrays_equal;
use pinocchio::pubkey::Pubkey;
use vstd::arithmetic::div_mod::lemma_basic_div;
use vstd::arithmetic::div_mod::lemma_div_denominator;
use vstd::arithmetic::power2::lemma2_to64;
use vstd::arithmetic::power2::lemma_pow2_pos;
use vstd::arithmetic::power2::lemma_pow2_strictly_increases;
use vstd::arithmetic::power2::lemma_pow2_unfold;
use vstd::arithmetic::power2::pow2;
use vstd::prelude::*;

verus! {

/// A tree as its contracts see it.
pub struct LeanImtView {
    /// Number of leaves.
    pub size: nat,
    /// Depth of the tree.
    pub depth: nat,
    /// One node per level; the entry at `depth` is the root.
    pub side_nodes: Seq<Seq<u8>>,
}

impl LeanImtView {
    /// The depth is the least `d` with `size <= 2^d`, and there is a side node for each
    /// level up to the greatest depth.
    pub open spec fn wf(self) -> bool {
        &&& self.side_nodes.len() == SIDE_NODES
        &&& self.depth <= MAX_TREE_DEPTH
        &&& self.size <= pow2(self.depth)
        &&& self.depth > 0 ==> pow2((self.depth - 1) as nat) < self.size
    }

    /// The tree without leaves: depth 0, every side node zero.
    pub open spec fn empty() -> LeanImtView {
        LeanImtView { size: 0, depth: 0, side_nodes: Seq::new(SIDE_NODES as nat, |i: int| zero_digest()) }
    }

    /// The root: the side node at the tree's depth.
    pub open spec fn root(self) -> Seq<u8> {
        self.side_nodes[self.depth as int]
    }

    /// The tree holds as many leaves as a tree of the greatest depth can.
    pub open spec fn is_full(self) -> bool {
        self.size >= MAX_LEAVES
    }

    /// The depth that the tree has once it holds one leaf more.
    pub open spec fn next_depth(self) -> nat {
        if pow2(self.depth) < self.size + 1 {
            self.depth + 1
        } else {
            self.depth
        }
    }

    /// The new leaf is a right child at `level`.
    pub open spec fn is_right(self, level: nat) -> bool {
        (self.size / pow2(level)) % 2 == 1
    }

    /// The node on the new leaf's path at `level`: a right child is hashed with the side
    /// node to its left, a left child moves up unchanged.
    pub open spec fn path_node(self, leaf: Seq<u8>, level: nat) -> Seq<u8>
        decreases level,
    {
        if level == 0 {
            leaf
        } else {
            let below = self.path_node(leaf, (level - 1) as nat);
            if self.is_right((level - 1) as nat) {
                spec_hash_two(self.side_nodes[level - 1], below)
            } else {
                below
            }
        }
    }

    /// The side node at `level` once the new leaf's path has been walked up to `top`.
    pub open spec fn side_after(self, leaf: Seq<u8>, top: nat, level: int) -> Seq<u8> {
        if level == top || (0 <= level < top && !self.is_right(level as nat)) {
            self.path_node(leaf, level as nat)
        } else {
            self.side_nodes[level]
        }
    }

    /// The tree is the accumulator of the tree over `leaves`: it has their number and the
    /// depth that goes with it, its root is the root over `leaves`, and on each level
    /// where the next leaf will be a right child the side node is the sibling that waits
    /// to its left.
    pub open spec fn tracks(self, leaves: Seq<Seq<u8>>) -> bool {
        &&& self.wf()
        &&& self.size == leaves.len()
        &&& self.depth == lean_depth(leaves.len())
        &&& leaves.len() >= 1 ==> self.root() == lean_root(leaves)
        &&& forall|level: int|
            0 <= level <= MAX_TREE_DEPTH && self.is_right(level as nat) ==> #[trigger] self.side_nodes[level]
                == lean_node(
                leaves,
                level as nat,
                (leaves.len() / pow2(level as nat) - 1) as nat,
            )
    }

    /// The tree with `leaf` appended.
    pub open spec fn insert(self, leaf: Seq<u8>) -> LeanImtView {
        let depth = self.next_depth();
        LeanImtView {
            size: self.size + 1,
            depth,
            side_nodes: Seq::new(
                self.side_nodes.len(),
                |level: int| self.side_after(leaf, depth, level),
            ),
        }
    }
}

/// A lean incremental Merkle tree in the form in which the pool record holds it.
#[derive(Clone, Copy, Debug, PartialEq, Eq)]
pub struct LeanIMTStateZC {
    /// Number of leaves in the tree.
    pub size: u64,
    /// Depth of the tree; it grows as leaves arrive.
    pub depth: u32,
    /// The node last seen at an even position on each level; the entry at `depth` is the
    /// root.
    pub side_nodes: [[u8; 32]; 33],
}

impl View for LeanIMTStateZC {
    type V = LeanImtView;

    open spec fn view(&self) -> LeanImtView {
        LeanImtView {
            size: self.size as nat,
            depth: self.depth as nat,
            side_nodes: digest_views(self.side_nodes@),
        }
    }
}

impl LeanIMTStateZC {
    /// An empty tree.
    pub fn new() -> (tree: Self)
        ensures
            tree@ == LeanImtView::empty(),
            tree@.wf(),
    {
        let tree = LeanIMTStateZC { size: 0, depth: 0, side_nodes: [[0u8; 32]; 33] };
        proof {
            lemma2_to64();
            assert forall|i: int| 0 <= i < 33 implies (#[trigger] tree.side_nodes@[i])@
                == zero_digest() by {
                assert(tree.side_nodes@[i]@ =~= zero_digest());
            }
            assert(tree@.side_nodes =~= LeanImtView::empty().side_nodes);
        }
        tree
    }

    /// Empties the tree.
    pub fn initialize(&mut self)
        ensures
            final(self)@ == LeanImtView::empty(),
            final(self)@.wf(),
    {
        *self = Self::new();
    }

    /// Whether size and depth agree as they do in every tree that insertions built.
    pub fn is_valid(&self) -> (valid: bool)
        ensures
            valid == self@.wf(),
    {
        proof {
            lemma2_to64();
        }
        if self.depth > 32 {
            return false;
        }
        proof {
            vstd::bits::lemma_u64_shl_is_mul(1, self.depth as u64);
            lemma_pow2_strictly_increases(self.depth as nat, 33);
            lemma_pow2_33();
        }
        let capacity: u64 = 1u64 << self.depth;
        if self.size > capacity {
            return false;
        }
        if self.depth > 0 {
            proof {
                lemma_pow2_unfold(self.depth as nat);
            }
            let half: u64 = capacity / 2;
            half < self.size
        } else {
            true
        }
    }

    /// Appends `leaf` and returns the new root. The one failure is a tree that holds
    /// `2^32` leaves already.
    pub fn insert(&mut self, leaf: [u8; 32]) -> (result: Result<[u8; 32], PoolError>)
        requires
            old(self)@.wf(),
        ensures
            final(self)@.wf(),
            old(self)@.is_full() ==> result == Err::<[u8; 32], PoolError>(PoolError::TreeFull)
                && *final(self) == *old(self),
            !old(self)@.is_full() ==> (result matches Ok(root) && root@ == final(self)@.root())
                && final(self)@ == old(self)@.insert(leaf@),
            old(self).depth <= final(self).depth <= old(self).depth + 1,
    {
        let index = self.size;
        if index >= MAX_LEAVES {
            return Err(PoolError::TreeFull);
        }
        proof {
            lemma2_to64();
            lemma_pow2_33();
            vstd::bits::lemma_u64_shl_is_mul(1, self.depth as u64);
            lemma_pow2_strictly_increases(self.depth as nat, 33);
            if self.depth == 32 {
                assert(pow2(32) >= index + 1);
            }
        }
        let mut tree_depth: u32 = self.depth;
        if (1u64 << tree_depth) < index + 1 {
            tree_depth += 1;
        }
        assert(tree_depth == old(self)@.next_depth());
        let mut node = leaf;
        let mut position: u64 = index;
        let mut level: u32 = 0;
        while level < tree_depth
            invariant
                level <= tree_depth <= 32,
                self.size == old(self).size,
                self.depth == old(self).depth,
                index == old(self).size,
                position == index as nat / pow2(level as nat),
                node@ == old(self)@.path_node(leaf@, level as nat),
                forall|l: int|
                    0 <= l < 33 ==> (#[trigger] self.side_nodes@[l])@ == (if l < level
                        && !old(self)@.is_right(l as nat) {
                        old(self)@.path_node(leaf@, l as nat)
                    } else {
                        old(self)@.side_nodes[l]
                    }),
            decreases tree_depth - level,
        {
            proof {
                lemma_pow2_pos(level as nat);
                lemma_pow2_unfold((level + 1) as nat);
                lemma_div_denominator(index as int, pow2(level as nat) as int, 2);
            }
            if position % 2 == 1 {
                node = hash_two(&self.side_nodes[level as usize], &node);
            } else {
                self.side_nodes[level as usize] = node;
            }
            position = position / 2;
            level += 1;
        }
        self.depth = tree_depth;
        self.size = index + 1;
        self.side_nodes[tree_depth as usize] = node;
        proof {
            let after = old(self)@.insert(leaf@);
            assert forall|l: int| 0 <= l < 33 implies (#[trigger] self@.side_nodes[l])
                == after.side_nodes[l] by {
                assert(self@.side_nodes[l] == self.side_nodes@[l]@);
            }
            assert(self@.side_nodes =~= after.side_nodes);
            if tree_depth > old(self).depth {
                lemma_pow2_unfold(tree_depth as nat);
            }
        }
        Ok(node)
    }

    /// The root: the side node at the tree's depth. An empty tree has the all-zero root.
    pub fn root(&self) -> (root: [u8; 32])
        requires
            self.depth <= MAX_TREE_DEPTH,
        ensures
            root@ == self@.root(),
    {
        self.side_nodes[self.depth as usize]
    }
}

/// The ASCII bytes of `PrivacyPool`, which open the preimage of a scope.
pub open spec fn scope_tag() -> Seq<u8> {
    seq![80u8, 114u8, 105u8, 118u8, 97u8, 99u8, 121u8, 80u8, 111u8, 111u8, 108u8]
}

/// The scope of the pool for an asset: `keccak(tag ++ asset_mint)`, not reduced.
pub open spec fn spec_generate_scope(asset_mint: Seq<u8>) -> Seq<u8> {
    keccak256(scope_tag() + asset_mint)
}

/// A pool record as its contracts see it.
pub struct PoolView {
    pub is_initialized: bool,
    /// Creator of the pool.
    pub authority: Seq<u8>,
    pub asset_mint: Seq<u8>,
    /// The one party that may wind the pool down.
    pub entrypoint: Seq<u8>,
    pub withdrawal_verifier: Seq<u8>,
    /// Domain separator derived from the asset.
    pub scope: Seq<u8>,
    /// Number of deposits made.
    pub nonce: nat,
    pub is_dead: bool,
    /// Bound on the depths that a withdrawal may declare, and on the trees' growth.
    pub max_tree_depth: nat,
    /// The window of recent state roots.
    pub roots: Seq<Seq<u8>>,
    /// Number of roots pushed; the next one goes to this slot modulo the window's size.
    pub current_root_index: nat,
    pub state_tree: LeanImtView,
    pub asp_tree: LeanImtView,
}

impl PoolView {
    /// Both trees are well formed, the window has its size, and the greatest depth is
    /// within the limit.
    pub open spec fn trees_wf(self) -> bool {
        &&& self.roots.len() == ROOT_HISTORY_SIZE
        &&& self.state_tree.wf()
        &&& self.asp_tree.wf()
        &&& self.max_tree_depth <= MAX_TREE_DEPTH
    }

    /// What holds of every record that the transitions produce: in an initialized pool
    /// the greatest depth is at least 1, and each deposit has added one label to the
    /// approved-set tree.
    pub open spec fn wf(self) -> bool {
        &&& self.trees_wf()
        &&& self.is_initialized ==> {
            &&& 1 <= self.max_tree_depth
            &&& self.nonce == self.asp_tree.size
        }
    }

    /// Some slot of the window holds `root`.
    pub open spec fn is_known_root(self, root: Seq<u8>) -> bool {
        exists|i: int| 0 <= i < self.roots.len() && self.roots[i] == root
    }

    /// The record after `root` was pushed into the window.
    pub open spec fn add_root(self, root: Seq<u8>) -> PoolView {
        PoolView {
            roots: self.roots.update(self.current_root_index as int % 64, root),
            current_root_index: ((self.current_root_index + 1) % 0x1_0000_0000_0000_0000) as nat,
            ..self
        }
    }

    /// The record with one more deposit counted.
    pub open spec fn increment_nonce(self) -> PoolView {
        PoolView { nonce: self.nonce + 1, ..self }
    }

    /// The state tree holds as many leaves as the pool's greatest depth allows.
    pub open spec fn state_tree_full(self) -> bool {
        self.state_tree.size >= pow2(self.max_tree_depth)
    }

    /// The approved-set tree holds as many leaves as the pool's greatest depth allows.
    pub open spec fn asp_tree_full(self) -> bool {
        self.asp_tree.size >= pow2(self.max_tree_depth)
    }

    /// The record after `commitment` was appended to the state tree and the new root
    /// pushed into the window.
    pub open spec fn insert_state_commitment(self, commitment: Seq<u8>) -> PoolView {
        let tree = self.state_tree.insert(commitment);
        PoolView { state_tree: tree, ..self }.add_root(tree.root())
    }

    /// The record after `label` was appended to the approved-set tree. Its root does not
    /// enter the window.
    pub open spec fn insert_asp_label(self, label: Seq<u8>) -> PoolView {
        PoolView { asp_tree: self.asp_tree.insert(label), ..self }
    }

    /// A record that was never written: every field zero, both trees empty.
    pub open spec fn blank() -> PoolView {
        PoolView {
            is_initialized: false,
            authority: zero_digest(),
            asset_mint: zero_digest(),
            entrypoint: zero_digest(),
            withdrawal_verifier: zero_digest(),
            scope: zero_digest(),
            nonce: 0,
            is_dead: false,
            max_tree_depth: 0,
            roots: Seq::new(ROOT_HISTORY_SIZE as nat, |i: int| zero_digest()),
            current_root_index: 0,
            state_tree: LeanImtView::empty(),
            asp_tree: LeanImtView::empty(),
        }
    }

    /// A freshly initialized record.
    pub open spec fn initial(
        authority: Seq<u8>,
        asset_mint: Seq<u8>,
        entrypoint: Seq<u8>,
        withdrawal_verifier: Seq<u8>,
        scope: Seq<u8>,
        max_tree_depth: nat,
    ) -> PoolView {
        PoolView {
            is_initialized: true,
            authority,
            asset_mint,
            entrypoint,
            withdrawal_verifier,
            scope,
            nonce: 0,
            is_dead: false,
            max_tree_depth,
            roots: Seq::new(ROOT_HISTORY_SIZE as nat, |i: int| zero_digest()),
            current_root_index: 0,
            state_tree: LeanImtView::empty(),
            asp_tree: LeanImtView::empty(),
        }
    }
}

/// The pool record: configuration, deposit counter, the window of recent state roots, and
/// the two trees.
#[derive(Clone, Copy, Debug, PartialEq, Eq)]
pub struct PoolStateLeanIMT {
    /// Nonzero once the pool has been initialized.
    pub is_initialized: u8,
    pub authority: [u8; 32],
    pub asset_mint: [u8; 32],
    pub entrypoint: [u8; 32],
    pub withdrawal_verifier: [u8; 32],
    pub scope: [u8; 32],
    pub nonce: u64,
    /// Nonzero once the pool has been wound down.
    pub is_dead: u8,
    pub max_tree_depth: u8,
    pub roots: [[u8; 32]; 64],
    pub current_root_index: u64,
    pub state_tree: LeanIMTStateZC,
    pub asp_tree: LeanIMTStateZC,
}

impl View for PoolStateLeanIMT {
    type V = PoolView;

    open spec fn view(&self) -> PoolView {
        PoolView {
            is_initialized: self.is_initialized != 0,
            authority: self.authority@,
            asset_mint: self.asset_mint@,
            entrypoint: self.entrypoint@,
            withdrawal_verifier: self.withdrawal_verifier@,
            scope: self.scope@,
            nonce: self.nonce as nat,
            is_dead: self.is_dead != 0,
            max_tree_depth: self.max_tree_depth as nat,
            roots: digest_views(self.roots@),
            current_root_index: self.current_root_index as nat,
            state_tree: self.state_tree@,
            asp_tree: self.asp_tree@,
        }
    }
}

impl PoolStateLeanIMT {
    /// A record that has not been initialized: every byte of it zero.
    pub fn new() -> (pool: Self)
        ensures
            pool@ == PoolView::blank(),
            pool.is_initialized == 0,
            pool.is_dead == 0,
            pool@.wf(),
    {
        let pool = PoolStateLeanIMT {
            is_initialized: 0,
            authority: [0u8; 32],
            asset_mint: [0u8; 32],
            entrypoint: [0u8; 32],
            withdrawal_verifier: [0u8; 32],
            scope: [0u8; 32],
            nonce: 0,
            is_dead: 0,
            max_tree_depth: 0,
            roots: [[0u8; 32]; 64],
            current_root_index: 0,
            state_tree: LeanIMTStateZC::new(),
            asp_tree: LeanIMTStateZC::new(),
        };
        proof {
            assert(pool.authority@ =~= zero_digest());
            assert(pool.asset_mint@ =~= zero_digest());
            assert(pool.entrypoint@ =~= zero_digest());
            assert(pool.withdrawal_verifier@ =~= zero_digest());
            assert(pool.scope@ =~= zero_digest());
            assert forall|i: int| 0 <= i < 64 implies (#[trigger] pool.roots@[i])@
                == zero_digest() by {
                assert(pool.roots@[i]@ =~= zero_digest());
            }
            assert(pool@.roots =~= PoolView::blank().roots);
        }
        pool
    }

    /// The scope of the pool for `asset_mint`.
    pub fn generate_scope(asset_mint: &Pubkey) -> (scope: [u8; 32])
        ensures
            scope@ == spec_generate_scope(asset_mint@),
    {
        let tag: [u8; 11] = [80, 114, 105, 118, 97, 99, 121, 80, 111, 111, 108];
        assert(tag@ =~= scope_tag());
        let mut preimage: Vec<u8> = Vec::new();
        append_bytes(&mut preimage, tag.as_slice());
        append_bytes(&mut preimage, asset_mint.as_slice());
        keccak256_digest(&preimage)
    }

    /// Makes the record that of a new, live pool with empty trees and an all-zero window.
    pub fn initialize(
        &mut self,
        authority: Pubkey,
        asset_mint: Pubkey,
        entrypoint: Pubkey,
        withdrawal_verifier: Pubkey,
        scope: [u8; 32],
        max_tree_depth: u8,
    )
        ensures
            final(self)@ == PoolView::initial(
                authority@,
                asset_mint@,
                entrypoint@,
                withdrawal_verifier@,
                scope@,
                max_tree_depth as nat,
            ),
            1 <= max_tree_depth <= MAX_TREE_DEPTH ==> final(self)@.wf(),
    {
        self.is_initialized = 1;
        self.authority = authority;
        self.asset_mint = asset_mint;
        self.entrypoint = entrypoint;
        self.withdrawal_verifier = withdrawal_verifier;
        self.scope = scope;
        self.nonce = 0;
        self.is_dead = 0;
        self.max_tree_depth = max_tree_depth;
        self.roots = [[0u8; 32]; 64];
        self.current_root_index = 0;
        self.state_tree.initialize();
        self.asp_tree.initialize();
        proof {
            assert forall|i: int| 0 <= i < 64 implies (#[trigger] self.roots@[i])@
                == zero_digest() by {
                assert(self.roots@[i]@ =~= zero_digest());
            }
            assert(self@.roots =~= Seq::new(ROOT_HISTORY_SIZE as nat, |i: int| zero_digest()));
        }
    }

    /// Whether the record is one that the transitions could have produced.
    pub fn is_valid(&self) -> (valid: bool)
        ensures
            valid == self@.wf(),
    {
        if !self.state_tree.is_valid() || !self.asp_tree.is_valid() {
            return false;
        }
        if self.max_tree_depth > MAX_TREE_DEPTH {
            return false;
        }
        if self.is_initialized != 0 {
            self.max_tree_depth >= 1 && self.nonce == self.asp_tree.size
        } else {
            true
        }
    }

    /// Appends `commitment` to the state tree and pushes the new root into the window.
    /// Fails, changing nothing, where the tree holds `2^max_tree_depth` leaves.
    pub fn insert_state_commitment(&mut self, commitment: [u8; 32]) -> (result: Result<
        (),
        PoolError,
    >)
        requires
            old(self)@.trees_wf(),
        ensures
            final(self)@.trees_wf(),
            old(self)@.state_tree_full() ==> result == Err::<(), PoolError>(PoolError::TreeFull)
                && *final(self) == *old(self),
            !old(self)@.state_tree_full() ==> result is Ok && final(self)@
                == old(self)@.insert_state_commitment(commitment@) && final(self)@.is_known_root(
                final(self)@.state_tree.root(),
            ),
    {
        if self.is_state_tree_full() {
            return Err(PoolError::TreeFull);
        }
        proof {
            lemma2_to64();
            if self.max_tree_depth < 32 {
                lemma_pow2_strictly_increases(self.max_tree_depth as nat, 32);
            }
        }
        match self.state_tree.insert(commitment) {
            Ok(root) => {
                self.add_root(root);
                Ok(())
            },
            Err(e) => Err(e),
        }
    }

    /// Appends `label` to the approved-set tree. Fails, changing nothing, where the tree
    /// holds `2^max_tree_depth` leaves.
    pub fn insert_asp_label(&mut self, label: [u8; 32]) -> (result: Result<(), PoolError>)
        requires
            old(self)@.trees_wf(),
        ensures
            final(self)@.trees_wf(),
            old(self)@.asp_tree_full() ==> result == Err::<(), PoolError>(PoolError::TreeFull)
                && *final(self) == *old(self),
            !old(self)@.asp_tree_full() ==> result is Ok && final(self)@
                == old(self)@.insert_asp_label(label@),
    {
        if self.is_asp_tree_full() {
            return Err(PoolError::TreeFull);
        }
        proof {
            lemma2_to64();
            if self.max_tree_depth < 32 {
                lemma_pow2_strictly_increases(self.max_tree_depth as nat, 32);
            }
        }
        match self.asp_tree.insert(label) {
            Ok(_) => Ok(()),
            Err(e) => Err(e),
        }
    }

    /// Whether the state tree holds as many leaves as the pool's greatest depth allows.
    pub fn is_state_tree_full(&self) -> (full: bool)
        requires
            self.max_tree_depth <= MAX_TREE_DEPTH,
        ensures
            full == self@.state_tree_full(),
    {
        proof {
            lemma2_to64();
            vstd::bits::lemma_u64_shl_is_mul(1, self.max_tree_depth as u64);
            lemma_pow2_strictly_increases(self.max_tree_depth as nat, 33);
            lemma_pow2_33();
        }
        self.state_tree.size >= (1u64 << self.max_tree_depth)
    }

    /// Whether the approved-set tree holds as many leaves as the pool's greatest depth
    /// allows.
    pub fn is_asp_tree_full(&self) -> (full: bool)
        requires
            self.max_tree_depth <= MAX_TREE_DEPTH,
        ensures
            full == self@.asp_tree_full(),
    {
        proof {
            lemma2_to64();
            vstd::bits::lemma_u64_shl_is_mul(1, self.max_tree_depth as u64);
            lemma_pow2_strictly_increases(self.max_tree_depth as nat, 33);
            lemma_pow2_33();
        }
        self.asp_tree.size >= (1u64 << self.max_tree_depth)
    }

    /// Pushes `root` into the window: it takes the slot at the push count modulo 64, and
    /// the count goes up by one.
    pub fn add_root(&mut self, root: [u8; 32])
        ensures
            final(self)@ == old(self)@.add_root(root@),
            final(self)@.is_known_root(root@),
    {
        let index = (self.current_root_index % 64) as usize;
        self.roots[index] = root;
        self.current_root_index = if self.current_root_index == u64::MAX {
            0
        } else {
            self.current_root_index + 1
        };
        proof {
            assert(self@.roots =~= old(self)@.roots.update(index as int, root@));
            assert(self@.roots[index as int] == root@);
        }
    }

    /// Whether some slot of the window holds `root`.
    pub fn is_known_root(&self, root: &[u8; 32]) -> (known: bool)
        ensures
            known == self@.is_known_root(root@),
    {
        let mut i: usize = 0;
        while i < 64
            invariant
                i <= 64,
                forall|k: int| 0 <= k < i ==> self@.roots[k] != root@,
            decreases 64 - i,
        {
            if arrays_equal(&self.roots[i], root) {
                assert(self@.roots[i as int] == root@);
                return true;
            }
            i += 1;
        }
        false
    }

    /// Whether the pool has been initialized.
    pub fn is_initialized(&self) -> (initialized: bool)
        ensures
            initialized == self@.is_initialized,
    {
        self.is_initialized != 0
    }

    /// Whether the pool has been wound down.
    pub fn is_dead(&self) -> (dead: bool)
        ensures
            dead == self@.is_dead,
    {
        self.is_dead != 0
    }

    /// Marks the pool as dead or as live.
    pub fn set_dead(&mut self, dead: bool)
        ensures
            final(self)@ == (PoolView { is_dead: dead, ..old(self)@ }),
    {
        self.is_dead = if dead {
            1
        } else {
            0
        };
    }

    /// The one party that may wind the pool down.
    pub fn get_entrypoint_authority(&self) -> (entrypoint: Pubkey)
        ensures
            entrypoint == self.entrypoint,
    {
        self.entrypoint
    }

    /// The asset that the pool holds.
    pub fn get_asset_mint(&self) -> (asset_mint: Pubkey)
        ensures
            asset_mint == self.asset_mint,
    {
        self.asset_mint
    }

    /// The root of the state tree.
    pub fn get_state_root(&self) -> (root: [u8; 32])
        requires
            self.state_tree.depth <= MAX_TREE_DEPTH,
        ensures
            root@ == self@.state_tree.root(),
    {
        self.state_tree.root()
    }

    /// The root of the approved-set tree.
    pub fn get_asp_root(&self) -> (root: [u8; 32])
        requires
            self.asp_tree.depth <= MAX_TREE_DEPTH,
        ensures
            root@ == self@.asp_tree.root(),
    {
        self.asp_tree.root()
    }

    /// The depth of the state tree.
    pub fn get_state_depth(&self) -> (depth: u32)
        ensures
            depth == self@.state_tree.depth,
    {
        self.state_tree.depth
    }

    /// The depth of the approved-set tree.
    pub fn get_asp_depth(&self) -> (depth: u32)
        ensures
            depth == self@.asp_tree.depth,
    {
        self.asp_tree.depth
    }

    /// Counts one more deposit and returns the new count.
    pub fn increment_nonce(&mut self) -> (nonce: u64)
        requires
            old(self).nonce < u64::MAX,
        ensures
            nonce == old(self).nonce + 1,
            final(self)@ == old(self)@.increment_nonce(),
    {
        self.nonce += 1;
        self.nonce
    }
}

/// A root that was just pushed is known.
pub proof fn lemma_pushed_root_is_known(pool: PoolView, root: Seq<u8>)
    requires
        pool.roots.len() == ROOT_HISTORY_SIZE,
    ensures
        pool.add_root(root).is_known_root(root),
{
    let slot = pool.current_root_index as int % 64;
    assert(pool.add_root(root).roots[slot] == root);
}

/// The record after the roots of `pushed` were pushed into the window, one after the
/// other.
pub open spec fn push_roots(pool: PoolView, pushed: Seq<Seq<u8>>) -> PoolView
    decreases pushed.len(),
{
    if pushed.len() == 0 {
        pool
    } else {
        push_roots(pool, pushed.drop_last()).add_root(pushed.last())
    }
}

/// The window of `pool` is what pushing `pushed` into a fresh window leaves: each of the
/// last 64 roots pushed sits in the slot of its number modulo 64, and the slots that no
/// push has reached are zero.
pub open spec fn window_holds(pool: PoolView, pushed: Seq<Seq<u8>>) -> bool {
    &&& pool.roots.len() == ROOT_HISTORY_SIZE
    &&& pool.current_root_index == pushed.len()
    &&& forall|k: int|
        0 <= k < pushed.len() && pushed.len() - 64 <= k ==> pool.roots[k % 64] == #[trigger] pushed[k]
    &&& forall|j: int| pushed.len() <= j < 64 ==> #[trigger] pool.roots[j] == zero_digest()
}

/// Pushing into a fresh window keeps it the window of what was pushed.
pub proof fn lemma_push_roots_window(pool: PoolView, pushed: Seq<Seq<u8>>)
    requires
        window_holds(pool, Seq::empty()),
        pushed.len() < 0x1_0000_0000_0000_0000,
    ensures
        window_holds(push_roots(pool, pushed), pushed),
    decreases pushed.len(),
{
    if pushed.len() > 0 {
        let earlier = pushed.drop_last();
        lemma_push_roots_window(pool, earlier);
        let before = push_roots(pool, earlier);
        let after = before.add_root(pushed.last());
        let n = earlier.len() as int;
        assert forall|k: int| 0 <= k < pushed.len() && pushed.len() - 64 <= k implies after.roots[k
            % 64] == #[trigger] pushed[k] by {
            if k < n {
                assert(earlier[k] == pushed[k]);
                assert(k % 64 != n % 64);
            }
        }
        assert forall|j: int| pushed.len() <= j < 64 implies #[trigger] after.roots[j]
            == zero_digest() by {
            assert(before.roots[j] == zero_digest());
        }
    }
}

/// After any run of pushes into a fresh window, a root is known exactly if it is among
/// the last 64 pushed, or is the all-zero root while fewer than 64 were pushed. So up to
/// 64 pushed roots are all known, and of more than 64 the last 64 are, and none that
/// differs from all of these.
pub proof fn lemma_root_window(pool: PoolView, pushed: Seq<Seq<u8>>, root: Seq<u8>)
    requires
        window_holds(pool, Seq::empty()),
        pushed.len() < 0x1_0000_0000_0000_0000,
    ensures
        push_roots(pool, pushed).is_known_root(root) <==> (exists|k: int|
            0 <= k < pushed.len() && pushed.len() - 64 <= k && #[trigger] pushed[k] == root) || (
        pushed.len() < 64 && root == zero_digest()),
{
    lemma_push_roots_window(pool, pushed);
    let after = push_roots(pool, pushed);
    let n = pushed.len() as int;
    if after.is_known_root(root) {
        let i = choose|i: int| 0 <= i < after.roots.len() && after.roots[i] == root;
        if i < n {
            let k = i + 64 * ((n - 1 - i) / 64);
            assert(k % 64 == i);
            assert(0 <= k < n && n - 64 <= k);
            assert(pushed[k] == root);
        } else {
            assert(after.roots[i] == zero_digest());
        }
    }
    if exists|k: int| 0 <= k < pushed.len() && pushed.len() - 64 <= k && #[trigger] pushed[k] == root {
        let k = choose|k: int|
            0 <= k < pushed.len() && pushed.len() - 64 <= k && #[trigger] pushed[k] == root;
        assert(after.roots[k % 64] == root);
    }
    if pushed.len() < 64 && root == zero_digest() {
        assert(after.roots[n] == zero_digest());
    }
}

/// The tree that insertions of `leaves`, one after the other, build from the empty tree.
pub open spec fn tree_of(leaves: Seq<Seq<u8>>) -> LeanImtView
    decreases leaves.len(),
{
    if leaves.len() == 0 {
        LeanImtView::empty()
    } else {
        tree_of(leaves.drop_last()).insert(leaves.last())
    }
}

/// The node that an insertion computes on a level is the node that the tree over the
/// leaves, the new one included, has at the new leaf's position on that level.
pub proof fn lemma_path_node(tree: LeanImtView, leaves: Seq<Seq<u8>>, leaf: Seq<u8>, level: nat)
    requires
        tree.tracks(leaves),
        level <= MAX_TREE_DEPTH,
    ensures
        tree.path_node(leaf, level) == lean_node(
            leaves.push(leaf),
            level,
            leaves.len() / pow2(level),
        ),
    decreases level,
{
    let n = leaves.len();
    if level == 0 {
        lemma2_to64();
        assert(n / pow2(0) == n);
        assert(leaves.push(leaf)[n as int] == leaf);
    } else {
        let below = (level - 1) as nat;
        lemma_path_node(tree, leaves, leaf, below);
        lemma_div_pow2_step(n, below);
        lemma_level_len_succ(n, below);
        let k = n / pow2(below);
        let j = n / pow2(level);
        let all = leaves.push(leaf);
        assert(all.len() == n + 1);
        assert(j == k / 2);
        assert(level_len(all.len(), below) == k + 1);
        assert(tree.path_node(leaf, below) == lean_node(all, below, k));
        if k % 2 == 1 {
            assert(tree.is_right(below));
            assert(2 * j + 1 == k);
            lemma_node_stable(leaves, leaf, below, (k - 1) as nat);
            assert(tree.side_nodes[below as int] == lean_node(leaves, below, (k - 1) as nat));
            assert(lean_node(all, level, j) == spec_hash_two(
                lean_node(all, below, 2 * j),
                lean_node(all, below, 2 * j + 1),
            ));
            assert(tree.path_node(leaf, level) == spec_hash_two(
                tree.side_nodes[level - 1],
                tree.path_node(leaf, below),
            ));
        } else {
            assert(!tree.is_right(below));
            assert(2 * j == k);
            assert(lean_node(all, level, j) == lean_node(all, below, 2 * j));
            assert(tree.path_node(leaf, level) == tree.path_node(leaf, below));
        }
    }
}

/// An insertion into the accumulator of a tree gives the accumulator of the tree with
/// one leaf more.
pub proof fn lemma_insert_tracks(tree: LeanImtView, leaves: Seq<Seq<u8>>, leaf: Seq<u8>)
    requires
        tree.tracks(leaves),
        !tree.is_full(),
    ensures
        tree.insert(leaf).tracks(leaves.push(leaf)),
{
    let n = leaves.len();
    let after = tree.insert(leaf);
    let all = leaves.push(leaf);
    let depth = tree.next_depth();
    lemma2_to64();
    lemma_pow2_pos(tree.depth);
    lemma_pow2_strictly_increases(tree.depth, 33);
    lemma_pow2_33();
    if depth > tree.depth {
        lemma_pow2_unfold(depth);
        if tree.depth == 32 {
            assert(false);
        }
    }
    assert(after.wf());
    assert(all.len() == n + 1);
    lemma_depth_unique(n + 1, depth);
    lemma_pow2_pos(depth);
    lemma_basic_div(n as int, pow2(depth) as int);
    lemma_path_node(tree, leaves, leaf, depth);
    assert(after.root() == lean_root(all));
    assert forall|level: int|
        0 <= level <= MAX_TREE_DEPTH && after.is_right(level as nat) implies #[trigger] after.side_nodes[level]
        == lean_node(all, level as nat, (all.len() / pow2(level as nat) - 1) as nat) by {
        let l = level as nat;
        let k = n / pow2(l);
        lemma_pow2_pos(l);
        lemma_div_pow2_succ(n, l);
        if l < depth {
            lemma_path_node(tree, leaves, leaf, l);
            if tree.is_right(l) {
                assert((n + 1) / pow2(l) == k);
                lemma_node_stable(leaves, leaf, l, (k - 1) as nat);
            } else {
                assert((n + 1) / pow2(l) == k + 1);
            }
        } else if l == depth {
            assert(k == 0);
        } else {
            lemma_pow2_strictly_increases(depth, l);
            lemma_basic_div((n + 1) as int, pow2(l) as int);
            assert(false);
        }
    }
}

/// Insertions build the accumulator of the tree over the leaves inserted.
pub proof fn lemma_tree_of_tracks(leaves: Seq<Seq<u8>>)
    requires
        leaves.len() <= MAX_LEAVES,
    ensures
        tree_of(leaves).tracks(leaves),
    decreases leaves.len(),
{
    lemma2_to64();
    if leaves.len() == 0 {
        let empty = LeanImtView::empty();
        assert forall|level: int|
            0 <= level <= MAX_TREE_DEPTH && empty.is_right(level as nat) implies #[trigger] empty.side_nodes[level]
            == lean_node(leaves, level as nat, (leaves.len() / pow2(level as nat) - 1) as nat) by {
            lemma_pow2_pos(level as nat);
            lemma_basic_div(0, pow2(level as nat) as int);
        }
    } else {
        lemma_tree_of_tracks(leaves.drop_last());
        lemma_insert_tracks(tree_of(leaves.drop_last()), leaves.drop_last(), leaves.last());
        assert(leaves.drop_last().push(leaves.last()) =~= leaves);
    }
}

/// The root after any run of insertions is the root of the lean tree over the leaves
/// inserted, and the depth is the least `d` with `size <= 2^d`.
pub proof fn lemma_root_of_insertions(leaves: Seq<Seq<u8>>)
    requires
        1 <= leaves.len() <= MAX_LEAVES,
    ensures
        tree_of(leaves).root() == lean_root(leaves),
        tree_of(leaves).size == leaves.len(),
        tree_of(leaves).depth == lean_depth(leaves.len()),
{
    lemma_tree_of_tracks(leaves);
}

/// In a well-formed tree the depth is the depth of a lean tree of its size, and it is 0
/// exactly while there is one leaf at most.
pub proof fn lemma_depth_of_size(tree: LeanImtView)
    requires
        tree.wf(),
    ensures
        tree.depth == lean_depth(tree.size),
        tree.depth == 0 <==> tree.size <= 1,
        tree.size <= MAX_LEAVES,
{
    lemma2_to64();
    lemma_depth_unique(tree.size, tree.depth);
    if tree.depth > 0 {
        lemma_pow2_pos((tree.depth - 1) as nat);
    }
    if tree.depth < 32 {
        lemma_pow2_strictly_increases(tree.depth, 32);
    }
}

/// A tree of one leaf has depth 0, and the leaf is its root.
pub proof fn lemma_single_leaf(x: Seq<u8>)
    ensures
        LeanImtView::empty().insert(x).size == 1,
        LeanImtView::empty().insert(x).depth == 0,
        LeanImtView::empty().insert(x).root() == x,
{
    lemma2_to64();
}

/// A tree of two leaves has depth 1, and its root is the hash of the pair.
pub proof fn lemma_pair(x: Seq<u8>, y: Seq<u8>)
    ensures
        LeanImtView::empty().insert(x).insert(y).size == 2,
        LeanImtView::empty().insert(x).insert(y).depth == 1,
        LeanImtView::empty().insert(x).insert(y).root() == spec_hash_two(x, y),
{
    lemma2_to64();
    let one = LeanImtView::empty().insert(x);
    assert(one.is_right(0));
    reveal_with_fuel(LeanImtView::path_node, 3);
}

/// A tree of three leaves has depth 2; the third leaf has no sibling and moves up
/// unchanged, to be hashed with the pair below the root.
pub proof fn lemma_three_leaves(x: Seq<u8>, y: Seq<u8>, z: Seq<u8>)
    ensures
        LeanImtView::empty().insert(x).insert(y).insert(z).size == 3,
        LeanImtView::empty().insert(x).insert(y).insert(z).depth == 2,
        LeanImtView::empty().insert(x).insert(y).insert(z).root() == spec_hash_two(
            spec_hash_two(x, y),
            z,
        ),
{
    lemma2_to64();
    lemma_pair(x, y);
    let two = LeanImtView::empty().insert(x).insert(y);
    assert(two.side_nodes[1] == spec_hash_two(x, y));
    assert(!two.is_right(0));
    assert(two.is_right(1));
    reveal_with_fuel(LeanImtView::path_node, 4);
}

/// A tree of four leaves has depth 2, and its root is the hash of the two pairs.
pub proof fn lemma_four_leaves(x1: Seq<u8>, x2: Seq<u8>, x3: Seq<u8>, x4: Seq<u8>)
    ensures
        LeanImtView::empty().insert(x1).insert(x2).insert(x3).insert(x4).size == 4,
        LeanImtView::empty().insert(x1).insert(x2).insert(x3).insert(x4).depth == 2,
        LeanImtView::empty().insert(x1).insert(x2).insert(x3).insert(x4).root()
            == spec_hash_two(spec_hash_two(x1, x2), spec_hash_two(x3, x4)),
{
    lemma2_to64();
    lemma_pair(x1, x2);
    lemma_three_leaves(x1, x2, x3);
    let two = LeanImtView::empty().insert(x1).insert(x2);
    let three = two.insert(x3);
    assert(two.side_nodes[1] == spec_hash_two(x1, x2));
    assert(!two.is_right(0));
    assert(three.side_nodes[0] == x3);
    assert(three.side_nodes[1] == spec_hash_two(x1, x2));
    assert(three.is_right(0));
    assert(three.is_right(1));
    reveal_with_fuel(LeanImtView::path_node, 4);
}

/// An insertion never lowers the depth and raises it by one at most.
pub proof fn lemma_depth_growth(tree: LeanImtView, leaf: Seq<u8>)
    ensures
        tree.depth <= tree.insert(leaf).depth <= tree.depth + 1,
{
}

} // verus!
