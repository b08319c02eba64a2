//! A lean incremental Merkle tree that keeps every node, so that it can hand out
//! inclusion proofs. It is the replica that a client keeps beside the pool's accumulator.

use crate::constants::MAX_LEAVES;
use crate::constants::MAX_TREE_DEPTH;
use crate::crypto::lean_tree::lean_node;
use crate::crypto::lean_tree::lean_root;
use crate::crypto::lean_tree::lemma_depth_unique;
use crate::crypto::lean_tree::lemma_div_pow2_step;
use crate::crypto::lean_tree::lemma_level_len_bounds;
use crate::crypto::lean_tree::lemma_level_len_succ;
use crate::crypto::lean_tree::lemma_node_stable;
use crate::crypto::lean_tree::lemma_pow2_33;
use crate::crypto::lean_tree::level_len;
use crate::crypto::poseidon::digest_views;
use crate::crypto::poseidon::hash_two;
use crate::crypto::poseidon::spec_hash_two;
use crate::crypto::poseidon::zero_digest;
use crate::error::PoolError;
use crate::utils::arrays_equal;
use vstd::arithmetic::div_mod::lemma_basic_div;
use vstd::arithmetic::div_mod::lemma_div_is_ordered;
use vstd::arithmetic::power2::lemma2_to64;
use vstd::arithmetic::power2::lemma_pow2_pos;
use vstd::arithmetic::power2::lemma_pow2_strictly_increases;
use vstd::arithmetic::power2::lemma_pow2_unfold;
use vstd::arithmetic::power2::pow2;
use vstd::prelude::*;

verus! {

/// An inclusion proof: the leaf, the siblings met on the way up, whether the node on the
/// way was the right child at each of them, and the root that the way ends in.
pub struct MerkleProof {
    pub root: [u8; 32],
    pub leaf: [u8; 32],
    pub siblings: Vec<[u8; 32]>,
    pub path: Vec<bool>,
}

/// The siblings met on the way up from leaf `index`, on the levels below `level`. A level
/// on which the node is a left child without a right sibling contributes none.
pub open spec fn siblings_below(leaves: Seq<Seq<u8>>, index: nat, level: nat) -> Seq<Seq<u8>>
    decreases level,
{
    if level == 0 {
        Seq::empty()
    } else {
        let below = (level - 1) as nat;
        let position = index / pow2(below);
        let lower = siblings_below(leaves, index, below);
        if position % 2 == 1 {
            lower.push(lean_node(leaves, below, (position - 1) as nat))
        } else if position + 1 < level_len(leaves.len(), below) {
            lower.push(lean_node(leaves, below, position + 1))
        } else {
            lower
        }
    }
}

/// For each sibling of `siblings_below`, whether the node on the way was the right child.
pub open spec fn path_below(leaves: Seq<Seq<u8>>, index: nat, level: nat) -> Seq<bool>
    decreases level,
{
    if level == 0 {
        Seq::empty()
    } else {
        let below = (level - 1) as nat;
        let position = index / pow2(below);
        let lower = path_below(leaves, index, below);
        if position % 2 == 1 {
            lower.push(true)
        } else if position + 1 < level_len(leaves.len(), below) {
            lower.push(false)
        } else {
            lower
        }
    }
}

/// The node reached from `leaf` by hashing with each sibling in turn, on the side that
/// `path` names. A sibling without an entry in `path` is taken as a right sibling.
pub open spec fn proof_fold(leaf: Seq<u8>, siblings: Seq<Seq<u8>>, path: Seq<bool>) -> Seq<u8>
    decreases siblings.len(),
{
    if siblings.len() == 0 {
        leaf
    } else {
        let node = proof_fold(leaf, siblings.drop_last(), path);
        let i = siblings.len() - 1;
        if i < path.len() && path[i] {
            spec_hash_two(siblings.last(), node)
        } else {
            spec_hash_two(node, siblings.last())
        }
    }
}

/// `row` is level `level` of the tree over `leaves`.
pub open spec fn row_matches(row: Seq<[u8; 32]>, leaves: Seq<Seq<u8>>, level: nat) -> bool {
    &&& row.len() == level_len(leaves.len(), level)
    &&& forall|j: int| 0 <= j < row.len() ==> (#[trigger] row[j])@ == lean_node(leaves, level, j as nat)
}

/// The fold reads no more of the path than there are siblings.
pub proof fn lemma_fold_path_prefix(
    leaf: Seq<u8>,
    siblings: Seq<Seq<u8>>,
    path: Seq<bool>,
    longer: Seq<bool>,
)
    requires
        path.len() >= siblings.len(),
        longer.len() >= path.len(),
        forall|i: int| 0 <= i < siblings.len() ==> path[i] == longer[i],
    ensures
        proof_fold(leaf, siblings, path) == proof_fold(leaf, siblings, longer),
    decreases siblings.len(),
{
    if siblings.len() > 0 {
        lemma_fold_path_prefix(leaf, siblings.drop_last(), path, longer);
    }
}

/// The siblings and the sides of a way come in pairs.
pub proof fn lemma_path_len(leaves: Seq<Seq<u8>>, index: nat, level: nat)
    ensures
        path_below(leaves, index, level).len() == siblings_below(leaves, index, level).len(),
        siblings_below(leaves, index, level).len() <= level,
    decreases level,
{
    if level > 0 {
        lemma_path_len(leaves, index, (level - 1) as nat);
    }
}

/// The way up from a leaf stays within the levels of the tree.
pub proof fn lemma_position_in_level(size: nat, index: nat, level: nat)
    requires
        index < size,
    ensures
        index / pow2(level) < level_len(size, level),
{
    lemma_pow2_pos(level);
    lemma_level_len_succ((size - 1) as nat, level);
    lemma_div_is_ordered(index as int, size - 1, pow2(level) as int);
}

/// Folding a leaf with the siblings of its way up to a level gives the node of the tree
/// that lies above the leaf on that level.
pub proof fn lemma_fold_reaches_node(leaves: Seq<Seq<u8>>, index: nat, level: nat)
    requires
        index < leaves.len(),
    ensures
        proof_fold(
            leaves[index as int],
            siblings_below(leaves, index, level),
            path_below(leaves, index, level),
        ) == lean_node(leaves, level, index / pow2(level)),
    decreases level,
{
    if level == 0 {
        lemma2_to64();
    } else {
        let below = (level - 1) as nat;
        let position = index / pow2(below);
        let lower = siblings_below(leaves, index, below);
        let lower_path = path_below(leaves, index, below);
        let all = siblings_below(leaves, index, level);
        let all_path = path_below(leaves, index, level);
        lemma_fold_reaches_node(leaves, index, below);
        lemma_path_len(leaves, index, below);
        lemma_div_pow2_step(index, below);
        lemma_position_in_level(leaves.len(), index, below);
        if position % 2 == 1 || position + 1 < level_len(leaves.len(), below) {
            assert(all.drop_last() =~= lower);
            assert(all.len() == lower.len() + 1);
            assert(all_path.len() == lower_path.len() + 1);
            assert(all_path[all.len() - 1] == (position % 2 == 1));
            lemma_fold_path_prefix(leaves[index as int], lower, lower_path, all_path);
        }
    }
}

/// Folding a leaf with the siblings of its way gives the root: a generated proof
/// verifies.
pub proof fn lemma_generated_proof_verifies(leaves: Seq<Seq<u8>>, index: nat, depth: nat)
    requires
        index < leaves.len(),
        leaves.len() <= pow2(depth),
        depth > 0 ==> pow2((depth - 1) as nat) < leaves.len(),
    ensures
        proof_fold(
            leaves[index as int],
            siblings_below(leaves, index, depth),
            path_below(leaves, index, depth),
        ) == lean_root(leaves),
{
    lemma_fold_reaches_node(leaves, index, depth);
    lemma_depth_unique(leaves.len(), depth);
    lemma_pow2_pos(depth);
    lemma_basic_div(index as int, pow2(depth) as int);
}

/// A lean incremental Merkle tree with all its nodes: `nodes[level][index]`.
pub struct LeanIMT {
    nodes: Vec<Vec<[u8; 32]>>,
    max_depth: Option<u8>,
}

impl LeanIMT {
    /// The leaves, in the order of their insertion.
    pub closed spec fn leaves(&self) -> Seq<Seq<u8>> {
        digest_views(self.nodes@[0]@)
    }

    /// The depth: one less than the number of levels.
    pub closed spec fn spec_depth(&self) -> nat {
        (self.nodes@.len() - 1) as nat
    }

    /// Number of leaves that the tree takes.
    pub closed spec fn capacity(&self) -> nat {
        match self.max_depth {
            Some(d) => pow2(d as nat),
            None => MAX_LEAVES as nat,
        }
    }

    /// The root: that of the lean tree over the leaves, all zero while there is none.
    pub open spec fn spec_root(&self) -> Seq<u8> {
        if self.leaves().len() == 0 {
            zero_digest()
        } else {
            lean_root(self.leaves())
        }
    }

    /// Every level holds the nodes of the lean tree over the leaves, there are as many
    /// levels as the number of leaves asks for, and the leaves are within the capacity.
    pub closed spec fn wf(&self) -> bool {
        let n = self.nodes@[0]@.len();
        let depth = (self.nodes@.len() - 1) as nat;
        &&& self.nodes@.len() >= 1
        &&& depth <= MAX_TREE_DEPTH
        &&& n <= pow2(depth)
        &&& depth > 0 ==> pow2((depth - 1) as nat) < n
        &&& n <= self.capacity() <= MAX_LEAVES
        &&& self.max_depth matches Some(d) ==> 1 <= d <= MAX_TREE_DEPTH
        &&& forall|l: int|
            0 <= l < self.nodes@.len() ==> row_matches(
                (#[trigger] self.nodes@[l])@,
                self.leaves(),
                l as nat,
            )
    }

    /// What well-formedness says of depth and size.
    pub proof fn lemma_wf_depth(&self)
        requires
            self.wf(),
        ensures
            self.spec_depth() <= MAX_TREE_DEPTH,
            self.leaves().len() <= pow2(self.spec_depth()),
            self.spec_depth() > 0 ==> pow2((self.spec_depth() - 1) as nat) < self.leaves().len(),
            self.leaves().len() <= self.capacity() <= MAX_LEAVES,
    {
    }

    /// The tree and the accumulator that the same insertions build have one root and one
    /// depth.
    pub proof fn lemma_matches_accumulator(&self)
        requires
            self.wf(),
            self.leaves().len() >= 1,
        ensures
            crate::state::lean_imt::tree_of(self.leaves()).root() == self.spec_root(),
            crate::state::lean_imt::tree_of(self.leaves()).depth == self.spec_depth(),
    {
        crate::state::lean_imt::lemma_root_of_insertions(self.leaves());
        lemma_depth_unique(self.leaves().len(), self.spec_depth());
    }

    /// An empty tree that takes `2^max_depth` leaves, or `2^32` where `max_depth` is 0.
    pub fn new(max_depth: u8) -> (tree: Self)
        requires
            max_depth <= MAX_TREE_DEPTH,
        ensures
            tree.wf(),
            tree.leaves() == Seq::<Seq<u8>>::empty(),
            tree.capacity() == (if max_depth == 0 {
                MAX_LEAVES as nat
            } else {
                pow2(max_depth as nat)
            }),
    {
        let mut nodes: Vec<Vec<[u8; 32]>> = Vec::new();
        nodes.push(Vec::new());
        let tree = LeanIMT { nodes, max_depth: if max_depth > 0 {
            Some(max_depth)
        } else {
            None
        } };
        proof {
            lemma2_to64();
            if max_depth > 0 && max_depth < 32 {
                lemma_pow2_strictly_increases(max_depth as nat, 32);
            }
            assert(tree.leaves() =~= Seq::<Seq<u8>>::empty());
        }
        tree
    }

    /// The current depth of the tree.
    pub fn depth(&self) -> (depth: u8)
        requires
            self.wf(),
        ensures
            depth == self.spec_depth(),
    {
        (self.nodes.len() - 1) as u8
    }

    /// The number of leaves.
    pub fn size(&self) -> (size: u64)
        requires
            self.wf(),
        ensures
            size == self.leaves().len(),
    {
        proof {
            lemma2_to64();
        }
        self.nodes[0].len() as u64
    }

    /// The root of the tree.
    pub fn root(&self) -> (root: [u8; 32])
        requires
            self.wf(),
        ensures
            root@ == self.spec_root(),
    {
        let depth = self.nodes.len() - 1;
        if self.nodes[depth].len() == 0 {
            proof {
                lemma_level_len_bounds(self.leaves().len(), depth as nat);
            }
            let zero = [0u8; 32];
            assert(zero@ =~= zero_digest());
            zero
        } else {
            proof {
                lemma_level_len_bounds(self.leaves().len(), depth as nat);
                lemma_depth_unique(self.leaves().len(), depth as nat);
            }
            self.nodes[depth][0]
        }
    }

    /// Whether the tree holds as many leaves as it takes.
    pub fn is_full(&self) -> (full: bool)
        requires
            self.wf(),
        ensures
            full == (self.leaves().len() >= self.capacity()),
    {
        let size = self.size();
        match self.max_depth {
            Some(d) => {
                proof {
                    lemma2_to64();
                    vstd::bits::lemma_u64_shl_is_mul(1, d as u64);
                    if d < 32 {
                        lemma_pow2_strictly_increases(d as nat, 32);
                    }
                }
                size >= (1u64 << (d as u64))
            },
            None => size >= MAX_LEAVES,
        }
    }

    /// Appends `leaf` and returns its index. Fails, changing nothing, where the tree is
    /// full.
    pub fn insert(&mut self, leaf: [u8; 32]) -> (result: Result<u64, PoolError>)
        requires
            old(self).wf(),
        ensures
            final(self).wf(),
            final(self).capacity() == old(self).capacity(),
            old(self).leaves().len() >= old(self).capacity() ==> result == Err::<u64, PoolError>(
                PoolError::TreeFull,
            ) && final(self).leaves() == old(self).leaves(),
            old(self).leaves().len() < old(self).capacity() ==> result == Ok::<u64, PoolError>(
                old(self).leaves().len() as u64,
            ) && final(self).leaves() == old(self).leaves().push(leaf@),
    {
        if self.is_full() {
            return Err(PoolError::TreeFull);
        }
        let index = self.size();
        let old_depth = self.nodes.len() - 1;
        let ghost old_rows = self.nodes@;
        let ghost old_leaves = self.leaves();
        let ghost new_leaves = old_leaves.push(leaf@);
        let ghost n = old_leaves.len();
        proof {
            lemma2_to64();
            vstd::bits::lemma_u64_shl_is_mul(1, old_depth as u64);
            lemma_pow2_strictly_increases(old_depth as nat, 33);
            lemma_pow2_33();
            assert(new_leaves.len() == n + 1);
        }
        if (1u64 << (old_depth as u64)) < index + 1 {
            self.nodes.push(Vec::new());
            proof {
                lemma_pow2_unfold((old_depth + 1) as nat);
            }
        }
        let depth = self.nodes.len() - 1;
        proof {
            if depth == 33 {
                assert(false);
            }
            lemma_pow2_pos(depth as nat);
        }
        let mut node = leaf;
        let mut current_index: usize = index as usize;
        let mut level: usize = 0;
        while level <= depth
            invariant
                level <= depth + 1,
                depth <= 32,
                depth == self.nodes@.len() - 1,
                old_rows.len() - 1 <= depth <= old_rows.len(),
                old_rows.len() >= 1,
                n + 1 <= pow2(depth as nat),
                depth > 0 ==> pow2((depth - 1) as nat) < n + 1,
                depth == old_rows.len() ==> n == pow2((depth - 1) as nat),
                self.max_depth == old(self).max_depth,
                n == old_leaves.len(),
                n <= usize::MAX,
                new_leaves == old_leaves.push(leaf@),
                forall|l: int|
                    0 <= l < old_rows.len() ==> row_matches(
                        (#[trigger] old_rows[l])@,
                        old_leaves,
                        l as nat,
                    ),
                forall|l: int|
                    0 <= l < level ==> row_matches(
                        (#[trigger] self.nodes@[l])@,
                        new_leaves,
                        l as nat,
                    ),
                forall|l: int|
                    level <= l < old_rows.len() ==> (#[trigger] self.nodes@[l])@ == old_rows[l]@,
                level <= depth && depth == old_rows.len() ==> self.nodes@[depth as int]@.len()
                    == 0,
                level <= depth ==> current_index == n / pow2(level as nat),
                level <= depth ==> node@ == lean_node(new_leaves, level as nat, n / pow2(level as nat)),
            decreases depth + 1 - level,
        {
            let ghost k = n / pow2(level as nat);
            proof {
                lemma_pow2_pos(level as nat);
                lemma_level_len_succ(n, level as nat);
                lemma_level_len_bounds(n, level as nat);
                lemma_div_pow2_step(n, level as nat);
                if level == old_rows.len() {
                    lemma_basic_div(n as int, pow2(level as nat) as int);
                } else {
                    assert(row_matches(old_rows[level as int]@, old_leaves, level as nat));
                }
            }
            let ghost before = self.nodes@[level as int]@;
            if self.nodes[level].len() <= current_index {
                self.nodes[level].push(node);
            } else {
                self.nodes[level][current_index] = node;
            }
            proof {
                let row = self.nodes@[level as int]@;
                assert(row.len() == k + 1);
                assert forall|j: int| 0 <= j < row.len() implies (#[trigger] row[j])@ == lean_node(
                    new_leaves,
                    level as nat,
                    j as nat,
                ) by {
                    if j < k {
                        assert(row[j] == before[j]);
                        assert(before[j] == old_rows[level as int]@[j]);
                        lemma_node_stable(old_leaves, leaf@, level as nat, j as nat);
                    }
                }
                assert(row_matches(row, new_leaves, level as nat));
            }
            if level < depth {
                if current_index % 2 == 1 {
                    let sibling = self.nodes[level][current_index - 1];
                    node = hash_two(&sibling, &node);
                }
                current_index = current_index / 2;
            }
            level += 1;
        }
        proof {
            assert(row_matches(self.nodes@[0]@, new_leaves, 0));
            assert(self.leaves() =~= new_leaves) by {
                assert forall|j: int| 0 <= j < new_leaves.len() implies self.leaves()[j]
                    == new_leaves[j] by {
                    assert(self.nodes@[0]@[j]@ == lean_node(new_leaves, 0, j as nat));
                }
            }
        }
        Ok(index)
    }

    /// The siblings on the way up from leaf `index`, with the sides, the leaf and the
    /// root. Fails where the tree has no leaf at `index`.
    pub fn generate_proof(&self, index: u64) -> (result: Result<MerkleProof, PoolError>)
        requires
            self.wf(),
        ensures
            index >= self.leaves().len() ==> (result matches Err(e) && e
                == PoolError::InvalidArgument),
            index < self.leaves().len() ==> (result matches Ok(proof) && {
                &&& proof.root@ == self.spec_root()
                &&& proof.leaf@ == self.leaves()[index as int]
                &&& digest_views(proof.siblings@) == siblings_below(
                    self.leaves(),
                    index as nat,
                    self.spec_depth(),
                )
                &&& proof.path@ == path_below(self.leaves(), index as nat, self.spec_depth())
            }),
    {
        if index >= self.size() {
            return Err(PoolError::InvalidArgument);
        }
        let ghost leaves = self.leaves();
        let depth = self.nodes.len() - 1;
        assert(row_matches(self.nodes@[0]@, leaves, 0));
        let leaf = self.nodes[0][index as usize];
        let mut siblings: Vec<[u8; 32]> = Vec::new();
        let mut path: Vec<bool> = Vec::new();
        let mut current_index: usize = index as usize;
        let mut level: usize = 0;
        proof {
            lemma2_to64();
        }
        while level < depth
            invariant
                level <= depth,
                depth == self.nodes@.len() - 1,
                self.wf(),
                leaves == self.leaves(),
                index < leaves.len(),
                current_index == index as nat / pow2(level as nat),
                digest_views(siblings@) == siblings_below(leaves, index as nat, level as nat),
                path@ == path_below(leaves, index as nat, level as nat),
            decreases depth - level,
        {
            proof {
                lemma_div_pow2_step(index as nat, level as nat);
                lemma_level_len_bounds(leaves.len(), level as nat);
                lemma_position_in_level(leaves.len(), index as nat, level as nat);
                assert(row_matches(self.nodes@[level as int]@, leaves, level as nat));
            }
            let is_right = current_index % 2 == 1;
            let ghost lower = digest_views(siblings@);
            if is_right {
                let sibling = self.nodes[level][current_index - 1];
                siblings.push(sibling);
                path.push(true);
                assert(digest_views(siblings@) =~= lower.push(sibling@));
            } else if current_index + 1 < self.nodes[level].len() {
                let sibling = self.nodes[level][current_index + 1];
                siblings.push(sibling);
                path.push(false);
                assert(digest_views(siblings@) =~= lower.push(sibling@));
            }
            current_index = current_index / 2;
            level += 1;
        }
        Ok(MerkleProof { root: self.root(), leaf, siblings, path })
    }

    /// Whether folding the proof's leaf with its siblings gives its root.
    pub fn verify_proof(&self, proof: &MerkleProof) -> (valid: bool)
        ensures
            valid == (proof_fold(proof.leaf@, digest_views(proof.siblings@), proof.path@)
                == proof.root@),
    {
        let mut node = proof.leaf;
        let mut i: usize = 0;
        let ghost all = digest_views(proof.siblings@);
        while i < proof.siblings.len()
            invariant
                i <= proof.siblings@.len(),
                all == digest_views(proof.siblings@),
                node@ == proof_fold(proof.leaf@, all.take(i as int), proof.path@),
            decreases proof.siblings@.len() - i,
        {
            proof {
                assert(all.take(i + 1).drop_last() =~= all.take(i as int));
                assert(all.take(i + 1).last() == proof.siblings@[i as int]@);
            }
            if i < proof.path.len() && proof.path[i] {
                node = hash_two(&proof.siblings[i], &node);
            } else {
                node = hash_two(&node, &proof.siblings[i]);
            }
            i += 1;
        }
        assert(all.take(i as int) =~= all);
        arrays_equal(&node, &proof.root)
    }

    /// Whether `siblings` are the siblings on the way up from the leaf at `index`. The
    /// leaf is the one that the tree holds there: `leaf` and `depth` do not enter.
    pub fn verify_inclusion(
        &self,
        leaf: [u8; 32],
        index: u64,
        siblings: &[[u8; 32]],
        depth: u8,
    ) -> (valid: bool)
        requires
            self.wf(),
        ensures
            valid == (index < self.leaves().len() && digest_views(siblings@) == siblings_below(
                self.leaves(),
                index as nat,
                self.spec_depth(),
            )),
    {
        match self.generate_proof(index) {
            Ok(proof) => {
                if proof.siblings.len() != siblings.len() {
                    assert(digest_views(proof.siblings@).len() != digest_views(siblings@).len());
                    return false;
                }
                let mut i: usize = 0;
                while i < siblings.len()
                    invariant
                        i <= siblings@.len(),
                        proof.siblings@.len() == siblings@.len(),
                        index < self.leaves().len(),
                        digest_views(proof.siblings@) == siblings_below(
                            self.leaves(),
                            index as nat,
                            self.spec_depth(),
                        ),
                        forall|k: int| 0 <= k < i ==> proof.siblings@[k]@ == siblings@[k]@,
                    decreases siblings@.len() - i,
                {
                    if !arrays_equal(&proof.siblings[i], &siblings[i]) {
                        assert(digest_views(proof.siblings@)[i as int] != digest_views(
                            siblings@,
                        )[i as int]);
                        assert(digest_views(proof.siblings@) != digest_views(siblings@));
                        return false;
                    }
                    i += 1;
                }
                proof {
                    assert(digest_views(proof.siblings@) =~= digest_views(siblings@));
                    lemma_generated_proof_verifies(
                        self.leaves(),
                        index as nat,
                        self.spec_depth(),
                    );
                }
                self.verify_proof(&proof)
            },
            Err(_) => false,
        }
    }

    /// The index of the first leaf equal to `leaf`, if there is one.
    pub fn index_of(&self, leaf: &[u8; 32]) -> (found: Option<u64>)
        requires
            self.wf(),
        ensures
            match found {
                Some(index) => {
                    &&& index < self.leaves().len()
                    &&& self.leaves()[index as int] == leaf@
                    &&& forall|k: int| 0 <= k < index ==> self.leaves()[k] != leaf@
                },
                None => forall|k: int| 0 <= k < self.leaves().len() ==> self.leaves()[k] != leaf@,
            },
    {
        let size = self.nodes[0].len();
        let mut i: usize = 0;
        while i < size
            invariant
                i <= size,
                self.nodes@.len() >= 1,
                size == self.nodes@[0]@.len(),
                self.leaves() == digest_views(self.nodes@[0]@),
                forall|k: int| 0 <= k < i ==> self.leaves()[k] != leaf@,
            decreases size - i,
        {
            if arrays_equal(&self.nodes[0][i], leaf) {
                return Some(i as u64);
            }
            i += 1;
        }
        None
    }

    /// Whether some leaf of the tree equals `leaf`.
    pub fn has_leaf(&self, leaf: &[u8; 32]) -> (found: bool)
        requires
            self.wf(),
        ensures
            found == self.leaves().contains(leaf@),
    {
        let found = self.index_of(leaf);
        proof {
            if let Some(index) = found {
                assert(self.leaves()[index as int] == leaf@);
            }
        }
        found.is_some()
    }

    /// The siblings on the way up from leaf `index`; none where there is no such leaf.
    pub fn get_sibling_path(&self, index: u64) -> (siblings: Vec<[u8; 32]>)
        requires
            self.wf(),
        ensures
            digest_views(siblings@) == (if index < self.leaves().len() {
                siblings_below(self.leaves(), index as nat, self.spec_depth())
            } else {
                Seq::<Seq<u8>>::empty()
            }),
    {
        match self.generate_proof(index) {
            Ok(proof) => proof.siblings,
            Err(_) => {
                let siblings: Vec<[u8; 32]> = Vec::new();
                assert(digest_views(siblings@) =~= Seq::<Seq<u8>>::empty());
                siblings
            },
        }
    }
}

} // verus!
