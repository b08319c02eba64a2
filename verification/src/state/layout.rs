//! The byte layouts of the persisted records.
//!
//! Every record has a fixed length; integers are little-endian and nothing is padded
//! implicitly. The pool record reads
//!
//! ```text
//! is_initialized:1 | authority:32 | asset_mint:32 | entrypoint:32 | withdrawal_verifier:32 |
//! scope:32 | nonce:8 | is_dead:1 | max_tree_depth:1 | zero:6 | roots:64x32 |
//! current_root_index:8 | state_tree | asp_tree
//! ```
//!
//! where a tree reads `size:8 | depth:4 | zero:4 | side_nodes:33x32`. A nullifier record
//! reads `is_spent:1 | nullifier_hash:32`, a depositor record `depositor:32 | label:32`.

use crate::error::PoolError;
use crate::state::lean_imt::LeanIMTStateZC;
use crate::state::lean_imt::PoolStateLeanIMT;
use crate::state::zero_copy::DepositorStateZC;
use crate::state::zero_copy::NullifierStateZC;
use crate::state::DepositorState;
use crate::state::NullifierState;
use crate::utils::append_bytes;
use crate::utils::append_digests;
use crate::utils::append_zeros;
use crate::utils::digests_decode;
use crate::utils::flatten;
use crate::utils::lemma_flatten_decodes;
use crate::utils::read_array;
use crate::utils::read_digest_array;
use crate::BorshDeserialize;
use crate::BorshSerialize;
use vstd::bytes::spec_u32_from_le_bytes;
use vstd::bytes::spec_u32_to_le_bytes;
use vstd::bytes::spec_u64_from_le_bytes;
use vstd::bytes::spec_u64_to_le_bytes;
use vstd::bytes::u32_from_le_bytes;
use vstd::bytes::u32_to_le_bytes;
use vstd::bytes::u64_from_le_bytes;
use vstd::bytes::u64_to_le_bytes;
use vstd::prelude::*;
use vstd::slice::slice_subrange;

verus! {

/// Length of a tree within the pool record.
pub const TREE_LEN: usize = 1072;

/// `count` zero bytes.
pub open spec fn zeros(count: nat) -> Seq<u8> {
    Seq::new(count, |i: int| 0u8)
}

/// The byte that stands for a flag.
pub open spec fn flag_byte(flag: bool) -> u8 {
    if flag {
        1
    } else {
        0
    }
}

/// `tree` is what `data` holds from `start` on.
pub open spec fn tree_decodes_at(data: Seq<u8>, start: int, tree: LeanIMTStateZC) -> bool {
    &&& tree.size == spec_u64_from_le_bytes(data.subrange(start, start + 8))
    &&& tree.depth == spec_u32_from_le_bytes(data.subrange(start + 8, start + 12))
    &&& digests_decode(data, start + 16, tree.side_nodes@, 33)
}

impl NullifierState {
    pub const LEN: usize = 33;
}

impl DepositorState {
    pub const LEN: usize = 64;
}

impl NullifierStateZC {
    pub const LEN: usize = 33;
}

impl DepositorStateZC {
    pub const LEN: usize = 64;
}

impl LeanIMTStateZC {
    pub const LEN: usize = 1072;
}

impl PoolStateLeanIMT {
    pub const LEN: usize = 4377;
}

impl BorshSerialize for NullifierState {
    open spec fn layout(&self) -> Seq<u8> {
        seq![flag_byte(self.is_spent)] + self.nullifier_hash@
    }

    fn try_to_vec(&self) -> (result: Result<Vec<u8>, PoolError>) {
        let mut bytes: Vec<u8> = Vec::new();
        bytes.push(if self.is_spent {
            1
        } else {
            0
        });
        assert(bytes@ =~= seq![flag_byte(self.is_spent)]);
        append_bytes(&mut bytes, self.nullifier_hash.as_slice());
        Ok(bytes)
    }
}

impl BorshDeserialize for NullifierState {
    open spec fn well_formed(data: Seq<u8>) -> bool {
        data.len() == 33
    }

    open spec fn decodes(data: Seq<u8>, value: Self) -> bool {
        &&& value.is_spent == (data[0] != 0)
        &&& value.nullifier_hash@ == data.subrange(1, 33)
    }

    fn try_from_slice(data: &[u8]) -> (result: Result<Self, PoolError>)
        ensures
            result matches Err(e) ==> e == PoolError::InvalidAccountData,
    {
        if data.len() != 33 {
            return Err(PoolError::InvalidAccountData);
        }
        Ok(NullifierState { is_spent: data[0] != 0, nullifier_hash: read_array(data, 1) })
    }
}

impl BorshSerialize for NullifierStateZC {
    open spec fn layout(&self) -> Seq<u8> {
        seq![self.is_spent] + self.nullifier_hash@
    }

    fn try_to_vec(&self) -> (result: Result<Vec<u8>, PoolError>) {
        let mut bytes: Vec<u8> = Vec::new();
        bytes.push(self.is_spent);
        assert(bytes@ =~= seq![self.is_spent]);
        append_bytes(&mut bytes, self.nullifier_hash.as_slice());
        Ok(bytes)
    }
}

impl BorshDeserialize for NullifierStateZC {
    open spec fn well_formed(data: Seq<u8>) -> bool {
        data.len() == 33
    }

    open spec fn decodes(data: Seq<u8>, value: Self) -> bool {
        &&& value.is_spent == data[0]
        &&& value.nullifier_hash@ == data.subrange(1, 33)
    }

    fn try_from_slice(data: &[u8]) -> (result: Result<Self, PoolError>)
        ensures
            result matches Err(e) ==> e == PoolError::InvalidAccountData,
    {
        if data.len() != 33 {
            return Err(PoolError::InvalidAccountData);
        }
        Ok(NullifierStateZC { is_spent: data[0], nullifier_hash: read_array(data, 1) })
    }
}

impl BorshSerialize for DepositorState {
    open spec fn layout(&self) -> Seq<u8> {
        self.depositor@ + self.label@
    }

    fn try_to_vec(&self) -> (result: Result<Vec<u8>, PoolError>) {
        let mut bytes: Vec<u8> = Vec::new();
        append_bytes(&mut bytes, self.depositor.as_slice());
        append_bytes(&mut bytes, self.label.as_slice());
        assert(bytes@ =~= self.depositor@ + self.label@);
        Ok(bytes)
    }
}

impl BorshDeserialize for DepositorState {
    open spec fn well_formed(data: Seq<u8>) -> bool {
        data.len() == 64
    }

    open spec fn decodes(data: Seq<u8>, value: Self) -> bool {
        &&& value.depositor@ == data.subrange(0, 32)
        &&& value.label@ == data.subrange(32, 64)
    }

    fn try_from_slice(data: &[u8]) -> (result: Result<Self, PoolError>)
        ensures
            result matches Err(e) ==> e == PoolError::InvalidAccountData,
    {
        if data.len() != 64 {
            return Err(PoolError::InvalidAccountData);
        }
        Ok(DepositorState { depositor: read_array(data, 0), label: read_array(data, 32) })
    }
}

impl BorshSerialize for DepositorStateZC {
    open spec fn layout(&self) -> Seq<u8> {
        self.depositor@ + self.label@
    }

    fn try_to_vec(&self) -> (result: Result<Vec<u8>, PoolError>) {
        let mut bytes: Vec<u8> = Vec::new();
        append_bytes(&mut bytes, self.depositor.as_slice());
        append_bytes(&mut bytes, self.label.as_slice());
        assert(bytes@ =~= self.depositor@ + self.label@);
        Ok(bytes)
    }
}

impl BorshDeserialize for DepositorStateZC {
    open spec fn well_formed(data: Seq<u8>) -> bool {
        data.len() == 64
    }

    open spec fn decodes(data: Seq<u8>, value: Self) -> bool {
        &&& value.depositor@ == data.subrange(0, 32)
        &&& value.label@ == data.subrange(32, 64)
    }

    fn try_from_slice(data: &[u8]) -> (result: Result<Self, PoolError>)
        ensures
            result matches Err(e) ==> e == PoolError::InvalidAccountData,
    {
        if data.len() != 64 {
            return Err(PoolError::InvalidAccountData);
        }
        Ok(DepositorStateZC { depositor: read_array(data, 0), label: read_array(data, 32) })
    }
}

/// Appends the layout of `tree` to `dst`.
pub fn append_tree(dst: &mut Vec<u8>, tree: &LeanIMTStateZC)
    ensures
        final(dst)@ == old(dst)@ + tree.layout(),
{
    let size_bytes = u64_to_le_bytes(tree.size);
    let depth_bytes = u32_to_le_bytes(tree.depth);
    let ghost start = dst@;
    append_bytes(dst, size_bytes.as_slice());
    append_bytes(dst, depth_bytes.as_slice());
    append_zeros(dst, 4);
    append_digests(dst, tree.side_nodes.as_slice());
    assert(dst@ =~= start + tree.layout());
}

/// Reads the tree that `data` holds from `start` on.
pub fn read_tree(data: &[u8], start: usize) -> (tree: LeanIMTStateZC)
    requires
        start + TREE_LEN <= data@.len(),
    ensures
        tree_decodes_at(data@, start as int, tree),
{
    let len = data.len();
    LeanIMTStateZC {
        size: u64_from_le_bytes(slice_subrange(data, start, start + 8)),
        depth: u32_from_le_bytes(slice_subrange(data, start + 8, start + 12)),
        side_nodes: read_digest_array(data, start + 16),
    }
}

impl BorshSerialize for LeanIMTStateZC {
    open spec fn layout(&self) -> Seq<u8> {
        spec_u64_to_le_bytes(self.size) + spec_u32_to_le_bytes(self.depth) + zeros(4) + flatten(
            self.side_nodes@,
        )
    }

    fn try_to_vec(&self) -> (result: Result<Vec<u8>, PoolError>) {
        let mut bytes: Vec<u8> = Vec::new();
        append_tree(&mut bytes, self);
        assert(bytes@ =~= self.layout());
        Ok(bytes)
    }
}

impl BorshDeserialize for LeanIMTStateZC {
    open spec fn well_formed(data: Seq<u8>) -> bool {
        data.len() == TREE_LEN
    }

    open spec fn decodes(data: Seq<u8>, value: Self) -> bool {
        tree_decodes_at(data, 0, value)
    }

    fn try_from_slice(data: &[u8]) -> (result: Result<Self, PoolError>)
        ensures
            result matches Err(e) ==> e == PoolError::InvalidAccountData,
    {
        if data.len() != TREE_LEN {
            return Err(PoolError::InvalidAccountData);
        }
        Ok(read_tree(data, 0))
    }
}

impl BorshSerialize for PoolStateLeanIMT {
    open spec fn layout(&self) -> Seq<u8> {
        seq![self.is_initialized] + self.authority@ + self.asset_mint@ + self.entrypoint@
            + self.withdrawal_verifier@ + self.scope@ + spec_u64_to_le_bytes(self.nonce)
            + seq![self.is_dead] + seq![self.max_tree_depth] + zeros(6) + flatten(self.roots@)
            + spec_u64_to_le_bytes(self.current_root_index) + self.state_tree.layout()
            + self.asp_tree.layout()
    }

    fn try_to_vec(&self) -> (result: Result<Vec<u8>, PoolError>) {
        let mut bytes: Vec<u8> = Vec::new();
        bytes.push(self.is_initialized);
        assert(bytes@ =~= seq![self.is_initialized]);
        append_bytes(&mut bytes, self.authority.as_slice());
        append_bytes(&mut bytes, self.asset_mint.as_slice());
        append_bytes(&mut bytes, self.entrypoint.as_slice());
        append_bytes(&mut bytes, self.withdrawal_verifier.as_slice());
        append_bytes(&mut bytes, self.scope.as_slice());
        let nonce_bytes = u64_to_le_bytes(self.nonce);
        append_bytes(&mut bytes, nonce_bytes.as_slice());
        let ghost before_flags = bytes@;
        bytes.push(self.is_dead);
        assert(bytes@ =~= before_flags + seq![self.is_dead]);
        let ghost before_depth = bytes@;
        bytes.push(self.max_tree_depth);
        assert(bytes@ =~= before_depth + seq![self.max_tree_depth]);
        append_zeros(&mut bytes, 6);
        append_digests(&mut bytes, self.roots.as_slice());
        let index_bytes = u64_to_le_bytes(self.current_root_index);
        append_bytes(&mut bytes, index_bytes.as_slice());
        append_tree(&mut bytes, &self.state_tree);
        append_tree(&mut bytes, &self.asp_tree);
        Ok(bytes)
    }
}

impl BorshDeserialize for PoolStateLeanIMT {
    open spec fn well_formed(data: Seq<u8>) -> bool {
        data.len() == 4377
    }

    open spec fn decodes(data: Seq<u8>, value: Self) -> bool {
        &&& value.is_initialized == data[0]
        &&& value.authority@ == data.subrange(1, 33)
        &&& value.asset_mint@ == data.subrange(33, 65)
        &&& value.entrypoint@ == data.subrange(65, 97)
        &&& value.withdrawal_verifier@ == data.subrange(97, 129)
        &&& value.scope@ == data.subrange(129, 161)
        &&& value.nonce == spec_u64_from_le_bytes(data.subrange(161, 169))
        &&& value.is_dead == data[169]
        &&& value.max_tree_depth == data[170]
        &&& digests_decode(data, 177, value.roots@, 64)
        &&& value.current_root_index == spec_u64_from_le_bytes(data.subrange(2225, 2233))
        &&& tree_decodes_at(data, 2233, value.state_tree)
        &&& tree_decodes_at(data, 3305, value.asp_tree)
    }

    fn try_from_slice(data: &[u8]) -> (result: Result<Self, PoolError>)
        ensures
            result matches Err(e) ==> e == PoolError::InvalidAccountData,
    {
        if data.len() != 4377 {
            return Err(PoolError::InvalidAccountData);
        }
        Ok(
            PoolStateLeanIMT {
                is_initialized: data[0],
                authority: read_array(data, 1),
                asset_mint: read_array(data, 33),
                entrypoint: read_array(data, 65),
                withdrawal_verifier: read_array(data, 97),
                scope: read_array(data, 129),
                nonce: u64_from_le_bytes(slice_subrange(data, 161, 169)),
                is_dead: data[169],
                max_tree_depth: data[170],
                roots: read_digest_array(data, 177),
                current_root_index: u64_from_le_bytes(slice_subrange(data, 2225, 2233)),
                state_tree: read_tree(data, 2233),
                asp_tree: read_tree(data, 3305),
            },
        )
    }
}

/// A tree that lies between other bytes reads back from where it starts.
pub proof fn lemma_tree_decodes_embedded(prefix: Seq<u8>, tree: LeanIMTStateZC, suffix: Seq<u8>)
    ensures
        tree.layout().len() == TREE_LEN,
        tree_decodes_at(prefix + tree.layout() + suffix, prefix.len() as int, tree),
{
    vstd::bytes::lemma_auto_spec_u64_to_from_le_bytes();
    vstd::bytes::lemma_auto_spec_u32_to_from_le_bytes();
    let data = prefix + tree.layout() + suffix;
    let start = prefix.len() as int;
    let head = spec_u64_to_le_bytes(tree.size) + spec_u32_to_le_bytes(tree.depth) + zeros(4);
    assert(head.len() == 16);
    assert(data.subrange(start, start + 8) =~= spec_u64_to_le_bytes(tree.size));
    assert(data.subrange(start + 8, start + 12) =~= spec_u32_to_le_bytes(tree.depth));
    lemma_flatten_decodes(prefix + head, tree.side_nodes@, suffix);
    assert(prefix + head + flatten(tree.side_nodes@) + suffix =~= data);
}

/// A nullifier record reads back as it was written, and bytes hold one record at most.
pub proof fn lemma_nullifier_layout(record: NullifierState, other: NullifierState)
    ensures
        NullifierState::well_formed(record.layout()),
        NullifierState::decodes(record.layout(), record),
        NullifierState::decodes(record.layout(), other) ==> other == record,
{
    assert(record.layout().subrange(1, 33) =~= record.nullifier_hash@);
    if NullifierState::decodes(record.layout(), other) {
        assert(other.nullifier_hash =~= record.nullifier_hash);
    }
}

/// A depositor record reads back as it was written, and bytes hold one record at most.
pub proof fn lemma_depositor_layout(record: DepositorState, other: DepositorState)
    ensures
        DepositorState::well_formed(record.layout()),
        DepositorState::decodes(record.layout(), record),
        DepositorState::decodes(record.layout(), other) ==> other == record,
{
    assert(record.layout().subrange(0, 32) =~= record.depositor@);
    assert(record.layout().subrange(32, 64) =~= record.label@);
    if DepositorState::decodes(record.layout(), other) {
        assert(other.depositor =~= record.depositor);
        assert(other.label =~= record.label);
    }
}

/// A nullifier record in its stored form reads back as it was written, and bytes hold
/// one record at most.
pub proof fn lemma_nullifier_zc_layout(record: NullifierStateZC, other: NullifierStateZC)
    ensures
        NullifierStateZC::well_formed(record.layout()),
        NullifierStateZC::decodes(record.layout(), record),
        NullifierStateZC::decodes(record.layout(), other) ==> other == record,
{
    assert(record.layout().subrange(1, 33) =~= record.nullifier_hash@);
    if NullifierStateZC::decodes(record.layout(), other) {
        assert(other.nullifier_hash =~= record.nullifier_hash);
    }
}

/// A depositor record in its stored form reads back as it was written, and bytes hold
/// one record at most.
pub proof fn lemma_depositor_zc_layout(record: DepositorStateZC, other: DepositorStateZC)
    ensures
        DepositorStateZC::well_formed(record.layout()),
        DepositorStateZC::decodes(record.layout(), record),
        DepositorStateZC::decodes(record.layout(), other) ==> other == record,
{
    assert(record.layout().subrange(0, 32) =~= record.depositor@);
    assert(record.layout().subrange(32, 64) =~= record.label@);
    if DepositorStateZC::decodes(record.layout(), other) {
        assert(other.depositor =~= record.depositor);
        assert(other.label =~= record.label);
    }
}

/// Two trees that the same bytes hold at the same place are one tree.
pub proof fn lemma_tree_decodes_unique(
    data: Seq<u8>,
    start: int,
    tree: LeanIMTStateZC,
    other: LeanIMTStateZC,
)
    requires
        tree_decodes_at(data, start, tree),
        tree_decodes_at(data, start, other),
    ensures
        tree == other,
{
    assert forall|i: int| 0 <= i < 33 implies tree.side_nodes[i] == other.side_nodes[i] by {
        assert(tree.side_nodes@[i]@ == other.side_nodes@[i]@);
        assert(tree.side_nodes@[i] =~= other.side_nodes@[i]);
    }
    assert(tree.side_nodes =~= other.side_nodes);
}

/// A tree reads back as it was written, and bytes hold one tree at most.
pub proof fn lemma_tree_layout(tree: LeanIMTStateZC, other: LeanIMTStateZC)
    ensures
        LeanIMTStateZC::well_formed(tree.layout()),
        LeanIMTStateZC::decodes(tree.layout(), tree),
        LeanIMTStateZC::decodes(tree.layout(), other) ==> other == tree,
{
    lemma_tree_decodes_embedded(Seq::empty(), tree, Seq::empty());
    assert(Seq::<u8>::empty() + tree.layout() + Seq::<u8>::empty() =~= tree.layout());
    if LeanIMTStateZC::decodes(tree.layout(), other) {
        lemma_tree_decodes_unique(tree.layout(), 0, tree, other);
    }
}

/// A pool record reads back as it was written, and bytes hold one record at most.
pub proof fn lemma_pool_layout(pool: PoolStateLeanIMT, other: PoolStateLeanIMT)
    ensures
        PoolStateLeanIMT::well_formed(pool.layout()),
        PoolStateLeanIMT::decodes(pool.layout(), pool),
        PoolStateLeanIMT::decodes(pool.layout(), other) ==> other == pool,
{
    vstd::bytes::lemma_auto_spec_u64_to_from_le_bytes();
    let data = pool.layout();
    let a = seq![pool.is_initialized] + pool.authority@ + pool.asset_mint@ + pool.entrypoint@
        + pool.withdrawal_verifier@ + pool.scope@ + spec_u64_to_le_bytes(pool.nonce)
        + seq![pool.is_dead] + seq![pool.max_tree_depth] + zeros(6);
    let b = flatten(pool.roots@);
    let c = spec_u64_to_le_bytes(pool.current_root_index);
    let d = pool.state_tree.layout();
    let e = pool.asp_tree.layout();
    assert(a.len() == 177);
    assert(b.len() == 2048);
    lemma_tree_decodes_embedded(a + b + c, pool.state_tree, e);
    lemma_tree_decodes_embedded(a + b + c + d, pool.asp_tree, Seq::empty());
    assert(a + b + c + d + e + Seq::<u8>::empty() =~= data);
    lemma_flatten_decodes(a, pool.roots@, c + d + e);
    assert(a + b + (c + d + e) =~= data);
    assert(data.subrange(1, 33) =~= pool.authority@);
    assert(data.subrange(33, 65) =~= pool.asset_mint@);
    assert(data.subrange(65, 97) =~= pool.entrypoint@);
    assert(data.subrange(97, 129) =~= pool.withdrawal_verifier@);
    assert(data.subrange(129, 161) =~= pool.scope@);
    assert(data.subrange(161, 169) =~= spec_u64_to_le_bytes(pool.nonce));
    assert(data.subrange(2225, 2233) =~= c);
    if PoolStateLeanIMT::decodes(data, other) {
        lemma_tree_decodes_unique(data, 2233, pool.state_tree, other.state_tree);
        lemma_tree_decodes_unique(data, 3305, pool.asp_tree, other.asp_tree);
        assert(other.authority =~= pool.authority);
        assert(other.asset_mint =~= pool.asset_mint);
        assert(other.entrypoint =~= pool.entrypoint);
        assert(other.withdrawal_verifier =~= pool.withdrawal_verifier);
        assert(other.scope =~= pool.scope);
        assert forall|i: int| 0 <= i < 64 implies pool.roots[i] == other.roots[i] by {
            assert(pool.roots@[i]@ == other.roots@[i]@);
            assert(pool.roots@[i] =~= other.roots@[i]);
        }
        assert(other.roots =~= pool.roots);
    }
}

} // verus!
