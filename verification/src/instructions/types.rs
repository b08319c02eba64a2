//! The instructions that the pool accepts, and their envelope.
//!
//! The first byte of an envelope is the discriminant; the body that follows has a length
//! fixed by the discriminant, but for a withdrawal, whose auxiliary data is prefixed by its
//! length. Bytes missing from or left over after the body make the envelope malformed.

use crate::error::PoolError;
use crate::utils::digests_decode;
use crate::utils::read_array;
use crate::utils::read_digests;
use crate::BorshDeserialize;
use pinocchio::pubkey::Pubkey;
use vstd::bytes::spec_u32_from_le_bytes;
use vstd::bytes::spec_u64_from_le_bytes;
use vstd::bytes::u32_from_le_bytes;
use vstd::bytes::u64_from_le_bytes;
use vstd::prelude::*;
use vstd::slice::slice_subrange;
use vstd::slice::slice_to_vec;

verus! {

/// Number of public signals of a withdrawal proof.
pub const WITHDRAW_SIGNALS: usize = 8;

/// Number of public signals of a ragequit proof.
pub const RAGEQUIT_SIGNALS: usize = 4;

/// Length of a proof's three group elements together.
pub const PROOF_POINTS_LEN: usize = 256;

/// An instruction to the pool, as its envelope spells it.
#[derive(Debug)]
#[allow(inconsistent_fields)]
pub enum PrivacyPoolInstruction {
    InitializePool { entrypoint_authority: Pubkey, max_tree_depth: u8, asset_mint: Pubkey },
    Deposit { depositor: Pubkey, value: u64, precommitment_hash: [u8; 32] },
    Withdraw { withdrawal_data: WithdrawalData, proof_data: WithdrawProofData },
    Ragequit { proof_data: RagequitProofData },
    WindDown,
}

/// The intent of a withdrawal: who processes it, and auxiliary data for the processor.
#[derive(Debug)]
pub struct WithdrawalData {
    pub processooor: Pubkey,
    pub data: Vec<u8>,
}

/// A withdrawal proof: three group elements and eight public signals.
#[derive(Debug)]
pub struct WithdrawProofData {
    pub proof_a: [u8; 64],
    pub proof_b: [u8; 128],
    pub proof_c: [u8; 64],
    pub public_signals: Vec<[u8; 32]>,
}

/// A ragequit proof: three group elements and four public signals.
#[derive(Debug)]
pub struct RagequitProofData {
    pub proof_a: [u8; 64],
    pub proof_b: [u8; 128],
    pub proof_c: [u8; 64],
    pub public_signals: Vec<[u8; 32]>,
}

/// The 64-bit value in the eight low bytes of a signal.
pub open spec fn signal_value(signal: [u8; 32]) -> u64 {
    spec_u64_from_le_bytes(signal@.subrange(0, 8))
}

/// The 64-bit value in the eight low bytes of `signal`.
pub fn read_signal_value(signal: &[u8; 32]) -> (value: u64)
    ensures
        value == signal_value(*signal),
{
    u64_from_le_bytes(slice_subrange(signal.as_slice(), 0, 8))
}

impl WithdrawProofData {
    /// The proof carries its eight public signals.
    pub open spec fn wf(&self) -> bool {
        self.public_signals@.len() == WITHDRAW_SIGNALS
    }

    /// The value withdrawn: signal 0.
    pub fn withdrawn_value(&self) -> (value: u64)
        requires
            self.public_signals@.len() > 0,
        ensures
            value == signal_value(self.public_signals@[0]),
    {
        read_signal_value(&self.public_signals[0])
    }

    /// The state root that the proof was made against: signal 1.
    pub fn state_root(&self) -> (root: [u8; 32])
        requires
            self.public_signals@.len() > 1,
        ensures
            root == self.public_signals@[1],
    {
        self.public_signals[1]
    }

    /// The depth of the state tree that the proof declares: the low byte of signal 2.
    pub fn state_tree_depth(&self) -> (depth: u8)
        requires
            self.public_signals@.len() > 2,
        ensures
            depth == self.public_signals@[2]@[0],
    {
        self.public_signals[2][0]
    }

    /// The root of the approved-set tree: signal 3.
    pub fn asp_root(&self) -> (root: [u8; 32])
        requires
            self.public_signals@.len() > 3,
        ensures
            root == self.public_signals@[3],
    {
        self.public_signals[3]
    }

    /// The depth of the approved-set tree that the proof declares: the low byte of
    /// signal 4.
    pub fn asp_tree_depth(&self) -> (depth: u8)
        requires
            self.public_signals@.len() > 4,
        ensures
            depth == self.public_signals@[4]@[0],
    {
        self.public_signals[4][0]
    }

    /// The context that binds the proof to a withdrawal and a pool: signal 5.
    pub fn context(&self) -> (context: [u8; 32])
        requires
            self.public_signals@.len() > 5,
        ensures
            context == self.public_signals@[5],
    {
        self.public_signals[5]
    }

    /// The commitment to what is left: signal 6.
    pub fn new_commitment_hash(&self) -> (hash: [u8; 32])
        requires
            self.public_signals@.len() > 6,
        ensures
            hash == self.public_signals@[6],
    {
        self.public_signals[6]
    }

    /// The hash of the nullifier that the withdrawal spends: signal 7.
    pub fn existing_nullifier_hash(&self) -> (hash: [u8; 32])
        requires
            self.public_signals@.len() > 7,
        ensures
            hash == self.public_signals@[7],
    {
        self.public_signals[7]
    }
}

impl RagequitProofData {
    /// The proof carries its four public signals.
    pub open spec fn wf(&self) -> bool {
        self.public_signals@.len() == RAGEQUIT_SIGNALS
    }

    /// The value of the deposit: signal 0.
    pub fn value(&self) -> (value: u64)
        requires
            self.public_signals@.len() > 0,
        ensures
            value == signal_value(self.public_signals@[0]),
    {
        read_signal_value(&self.public_signals[0])
    }

    /// The label of the deposit: signal 1.
    pub fn label(&self) -> (label: [u8; 32])
        requires
            self.public_signals@.len() > 1,
        ensures
            label == self.public_signals@[1],
    {
        self.public_signals[1]
    }

    /// The commitment of the deposit: signal 2.
    pub fn commitment_hash(&self) -> (hash: [u8; 32])
        requires
            self.public_signals@.len() > 2,
        ensures
            hash == self.public_signals@[2],
    {
        self.public_signals[2]
    }

    /// The hash of the nullifier that the ragequit spends: signal 3.
    pub fn nullifier_hash(&self) -> (hash: [u8; 32])
        requires
            self.public_signals@.len() > 3,
        ensures
            hash == self.public_signals@[3],
    {
        self.public_signals[3]
    }
}

/// The three group elements and the `count` signals of a proof lie in `data` from
/// `start` on.
pub open spec fn proof_decodes(
    data: Seq<u8>,
    start: int,
    proof_a: [u8; 64],
    proof_b: [u8; 128],
    proof_c: [u8; 64],
    signals: Seq<[u8; 32]>,
    count: nat,
) -> bool {
    &&& proof_a@ == data.subrange(start, start + 64)
    &&& proof_b@ == data.subrange(start + 64, start + 192)
    &&& proof_c@ == data.subrange(start + 192, start + 256)
    &&& digests_decode(data, start + 256, signals, count)
}

/// The length that a withdrawal's envelope declares for its auxiliary data.
pub open spec fn declared_data_len(data: Seq<u8>) -> int {
    spec_u32_from_le_bytes(data.subrange(33, 37)) as int
}

impl BorshDeserialize for PrivacyPoolInstruction {
    /// The envelope has a known discriminant and exactly the body that goes with it.
    open spec fn well_formed(data: Seq<u8>) -> bool {
        &&& data.len() >= 1
        &&& {
            ||| data[0] == 0 && data.len() == 66
            ||| data[0] == 1 && data.len() == 73
            ||| data[0] == 2 && data.len() >= 37 && data.len() == 549 + declared_data_len(data)
            ||| data[0] == 3 && data.len() == 385
            ||| data[0] == 4 && data.len() == 1
        }
    }

    /// Each field of the instruction is the piece of the envelope at the field's place.
    open spec fn decodes(data: Seq<u8>, value: Self) -> bool {
        match value {
            PrivacyPoolInstruction::InitializePool {
                entrypoint_authority,
                max_tree_depth,
                asset_mint,
            } => {
                &&& data[0] == 0
                &&& entrypoint_authority@ == data.subrange(1, 33)
                &&& max_tree_depth == data[33]
                &&& asset_mint@ == data.subrange(34, 66)
            },
            PrivacyPoolInstruction::Deposit { depositor, value, precommitment_hash } => {
                &&& data[0] == 1
                &&& depositor@ == data.subrange(1, 33)
                &&& value == spec_u64_from_le_bytes(data.subrange(33, 41))
                &&& precommitment_hash@ == data.subrange(41, 73)
            },
            PrivacyPoolInstruction::Withdraw { withdrawal_data, proof_data } => {
                &&& data[0] == 2
                &&& withdrawal_data.processooor@ == data.subrange(1, 33)
                &&& withdrawal_data.data@ == data.subrange(37, 37 + declared_data_len(data))
                &&& proof_decodes(
                    data,
                    37 + declared_data_len(data),
                    proof_data.proof_a,
                    proof_data.proof_b,
                    proof_data.proof_c,
                    proof_data.public_signals@,
                    WITHDRAW_SIGNALS as nat,
                )
            },
            PrivacyPoolInstruction::Ragequit { proof_data } => {
                &&& data[0] == 3
                &&& proof_decodes(
                    data,
                    1,
                    proof_data.proof_a,
                    proof_data.proof_b,
                    proof_data.proof_c,
                    proof_data.public_signals@,
                    RAGEQUIT_SIGNALS as nat,
                )
            },
            PrivacyPoolInstruction::WindDown => data[0] == 4,
        }
    }

    fn try_from_slice(data: &[u8]) -> (result: Result<Self, PoolError>)
        ensures
            result matches Err(e) ==> e == PoolError::InvalidInstructionData,
    {
        let len = data.len();
        if len == 0 {
            return Err(PoolError::InvalidInstructionData);
        }
        let discriminant = data[0];
        if discriminant == 0 {
            if len != 66 {
                return Err(PoolError::InvalidInstructionData);
            }
            Ok(
                PrivacyPoolInstruction::InitializePool {
                    entrypoint_authority: read_array(data, 1),
                    max_tree_depth: data[33],
                    asset_mint: read_array(data, 34),
                },
            )
        } else if discriminant == 1 {
            if len != 73 {
                return Err(PoolError::InvalidInstructionData);
            }
            Ok(
                PrivacyPoolInstruction::Deposit {
                    depositor: read_array(data, 1),
                    value: u64_from_le_bytes(slice_subrange(data, 33, 41)),
                    precommitment_hash: read_array(data, 41),
                },
            )
        } else if discriminant == 2 {
            if len < 37 {
                return Err(PoolError::InvalidInstructionData);
            }
            let declared: u32 = u32_from_le_bytes(slice_subrange(data, 33, 37));
            if len as u64 != 549 + declared as u64 {
                return Err(PoolError::InvalidInstructionData);
            }
            let proof_start: usize = 37 + declared as usize;
            let withdrawal_data = WithdrawalData {
                processooor: read_array(data, 1),
                data: slice_to_vec(slice_subrange(data, 37, proof_start)),
            };
            let proof_data = WithdrawProofData {
                proof_a: read_array(data, proof_start),
                proof_b: read_array(data, proof_start + 64),
                proof_c: read_array(data, proof_start + 192),
                public_signals: read_digests(data, proof_start + 256, WITHDRAW_SIGNALS),
            };
            Ok(PrivacyPoolInstruction::Withdraw { withdrawal_data, proof_data })
        } else if discriminant == 3 {
            if len != 385 {
                return Err(PoolError::InvalidInstructionData);
            }
            let proof_data = RagequitProofData {
                proof_a: read_array(data, 1),
                proof_b: read_array(data, 65),
                proof_c: read_array(data, 193),
                public_signals: read_digests(data, 257, RAGEQUIT_SIGNALS),
            };
            Ok(PrivacyPoolInstruction::Ragequit { proof_data })
        } else if discriminant == 4 {
            if len != 1 {
                return Err(PoolError::InvalidInstructionData);
            }
            Ok(PrivacyPoolInstruction::WindDown)
        } else {
            Err(PoolError::InvalidInstructionData)
        }
    }
}

} // verus!
