//! Fixed values for trying the engine out: a withdrawal, and proofs whose public signals
//! are easy to tell apart.

use crate::crypto::poseidon::u64_to_digest;
use crate::instructions::types::signal_value;
use crate::instructions::types::RagequitProofData;
use crate::instructions::types::WithdrawProofData;
use crate::instructions::types::WithdrawalData;
use vstd::prelude::*;

verus! {

/// `len` bytes, each of them `byte`.
pub open spec fn filled(byte: u8, len: nat) -> Seq<u8> {
    Seq::new(len, |i: int| byte)
}

/// A digest that is zero but for its first byte.
pub fn low_byte_digest(byte: u8) -> (digest: [u8; 32])
    ensures
        digest@ == seq![byte] + filled(0, 31),
{
    let mut digest = [0u8; 32];
    digest[0] = byte;
    assert(digest@ =~= seq![byte] + filled(0, 31));
    digest
}

/// A withdrawal processed by the key of all tens, with four bytes of data.
pub fn create_test_withdrawal_data() -> (withdrawal: WithdrawalData)
    ensures
        withdrawal.processooor@ == filled(10, 32),
        withdrawal.data@ == seq![1u8, 2u8, 3u8, 4u8],
{
    let withdrawal = WithdrawalData { processooor: [10u8; 32], data: vec![1u8, 2u8, 3u8, 4u8] };
    assert(withdrawal.processooor@ =~= filled(10, 32));
    withdrawal
}

/// A withdrawal proof that declares the value 100, state depth 1 and approved-set depth
/// 2, and whose other signals are filled with 200 to 204.
pub fn create_test_withdraw_proof_data() -> (proof: WithdrawProofData)
    ensures
        proof.wf(),
        proof.proof_a@ == filled(1, 64),
        proof.proof_b@ == filled(2, 128),
        proof.proof_c@ == filled(3, 64),
        signal_value(proof.public_signals@[0]) == 100,
        proof.public_signals@[1]@ == filled(200, 32),
        proof.public_signals@[2]@ == seq![1u8] + filled(0, 31),
        proof.public_signals@[3]@ == filled(201, 32),
        proof.public_signals@[4]@ == seq![2u8] + filled(0, 31),
        proof.public_signals@[5]@ == filled(202, 32),
        proof.public_signals@[6]@ == filled(203, 32),
        proof.public_signals@[7]@ == filled(204, 32),
{
    let value_bytes = u64_to_digest(100);
    let depth_bytes = low_byte_digest(1);
    let asp_depth_bytes = low_byte_digest(2);
    let proof = WithdrawProofData {
        proof_a: [1u8; 64],
        proof_b: [2u8; 128],
        proof_c: [3u8; 64],
        public_signals: vec![
            value_bytes,
            [200u8; 32],
            depth_bytes,
            [201u8; 32],
            asp_depth_bytes,
            [202u8; 32],
            [203u8; 32],
            [204u8; 32],
        ],
    };
    proof {
        vstd::bytes::lemma_auto_spec_u64_to_from_le_bytes();
        assert(value_bytes@.subrange(0, 8) =~= vstd::bytes::spec_u64_to_le_bytes(100));
        assert(proof.proof_a@ =~= filled(1, 64));
        assert(proof.proof_b@ =~= filled(2, 128));
        assert(proof.proof_c@ =~= filled(3, 64));
        assert(proof.public_signals@[1]@ =~= filled(200, 32));
        assert(proof.public_signals@[3]@ =~= filled(201, 32));
        assert(proof.public_signals@[5]@ =~= filled(202, 32));
        assert(proof.public_signals@[6]@ =~= filled(203, 32));
        assert(proof.public_signals@[7]@ =~= filled(204, 32));
    }
    proof
}

/// A ragequit proof that declares the value 100 and whose other signals are filled with
/// 50 to 52.
pub fn create_test_ragequit_proof_data() -> (proof: RagequitProofData)
    ensures
        proof.wf(),
        proof.proof_a@ == filled(4, 64),
        proof.proof_b@ == filled(5, 128),
        proof.proof_c@ == filled(6, 64),
        signal_value(proof.public_signals@[0]) == 100,
        proof.public_signals@[1]@ == filled(50, 32),
        proof.public_signals@[2]@ == filled(51, 32),
        proof.public_signals@[3]@ == filled(52, 32),
{
    let value_bytes = u64_to_digest(100);
    let proof = RagequitProofData {
        proof_a: [4u8; 64],
        proof_b: [5u8; 128],
        proof_c: [6u8; 64],
        public_signals: vec![value_bytes, [50u8; 32], [51u8; 32], [52u8; 32]],
    };
    proof {
        vstd::bytes::lemma_auto_spec_u64_to_from_le_bytes();
        assert(value_bytes@.subrange(0, 8) =~= vstd::bytes::spec_u64_to_le_bytes(100));
        assert(proof.proof_a@ =~= filled(4, 64));
        assert(proof.proof_b@ =~= filled(5, 128));
        assert(proof.proof_c@ =~= filled(6, 64));
        assert(proof.public_signals@[1]@ =~= filled(50, 32));
        assert(proof.public_signals@[2]@ =~= filled(51, 32));
        assert(proof.public_signals@[3]@ =~= filled(52, 32));
    }
    proof
}

} // verus!
