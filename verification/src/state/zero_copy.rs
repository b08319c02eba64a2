//! The records kept per spent nullifier and per deposit, field for field as they are
//! stored. The transitions read and write them in this form.

use pinocchio::pubkey::Pubkey;
use vstd::prelude::*;

verus! {

/// The record of a nullifier. A nullifier is spent once its record is marked; a record
/// that was never written is all zero.
#[derive(Clone, Copy, Debug, PartialEq, Eq)]
pub struct NullifierStateZC {
    /// Nonzero once the nullifier has been spent.
    pub is_spent: u8,
    pub nullifier_hash: [u8; 32],
}

/// The record of a deposit: who made it, and under which label.
#[derive(Clone, Copy, Debug, PartialEq, Eq)]
pub struct DepositorStateZC {
    pub depositor: [u8; 32],
    pub label: [u8; 32],
}

impl NullifierStateZC {
    /// A record that was never written.
    pub fn new() -> (record: Self)
        ensures
            record.is_spent == 0,
            record.nullifier_hash@ == Seq::new(32, |i: int| 0u8),
    {
        let record = NullifierStateZC { is_spent: 0, nullifier_hash: [0u8; 32] };
        assert(record.nullifier_hash@ =~= Seq::new(32, |i: int| 0u8));
        record
    }

    /// The record marks its nullifier as spent.
    pub open spec fn spent(&self) -> bool {
        self.is_spent != 0
    }

    /// Whether the record marks its nullifier as spent.
    pub fn is_spent(&self) -> (spent: bool)
        ensures
            spent == self.spent(),
    {
        self.is_spent != 0
    }

    /// Marks `nullifier_hash` as spent.
    pub fn set_spent(&mut self, nullifier_hash: [u8; 32])
        ensures
            final(self).is_spent == 1,
            final(self).nullifier_hash == nullifier_hash,
    {
        self.is_spent = 1;
        self.nullifier_hash = nullifier_hash;
    }
}

impl DepositorStateZC {
    /// A record that was never written.
    pub fn new() -> (record: Self)
        ensures
            record.depositor@ == Seq::new(32, |i: int| 0u8),
            record.label@ == Seq::new(32, |i: int| 0u8),
    {
        let record = DepositorStateZC { depositor: [0u8; 32], label: [0u8; 32] };
        assert(record.depositor@ =~= Seq::new(32, |i: int| 0u8));
        assert(record.label@ =~= Seq::new(32, |i: int| 0u8));
        record
    }

    /// Records that `depositor` made the deposit labelled `label`.
    pub fn set(&mut self, depositor: Pubkey, label: [u8; 32])
        ensures
            final(self).depositor == depositor,
            final(self).label == label,
    {
        self.depositor = depositor;
        self.label = label;
    }
}

} // verus!
