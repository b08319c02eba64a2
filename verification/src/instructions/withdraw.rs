//! Withdrawals: a proof against a recent state root spends a nullifier and appends the
//! commitment to what is left.

use crate::crypto::poseidon::compute_context;
use crate::crypto::poseidon::spec_compute_context;
use crate::error::PoolError;
use crate::instructions::types::WithdrawProofData;
use crate::instructions::types::WithdrawalData;
use crate::instructions::types::WITHDRAW_SIGNALS;
use crate::state::lean_imt::PoolStateLeanIMT;
use crate::state::lean_imt::PoolView;
use crate::state::zero_copy::NullifierStateZC;
use crate::utils::arrays_equal;
use pinocchio::pubkey::Pubkey;
use vstd::prelude::*;

verus! {

/// Why a withdrawal is turned down, if it is. The checks come in this order, and the
/// first that fails names the error.
pub open spec fn withdraw_error(
    pool: PoolView,
    nullifier_recorded: bool,
    signer: Seq<u8>,
    signed: bool,
    processooor: Seq<u8>,
    data: Seq<u8>,
    signals: Seq<[u8; 32]>,
    proof_valid: bool,
) -> Option<PoolError> {
    if signals.len() != WITHDRAW_SIGNALS {
        Some(PoolError::InvalidInstructionData)
    } else if signer != processooor {
        Some(PoolError::InvalidProcessor)
    } else if !signed {
        Some(PoolError::MissingSignature)
    } else if !pool.is_initialized {
        Some(PoolError::NotInitialized)
    } else if spec_compute_context(processooor, data, pool.scope) != signals[5]@ {
        Some(PoolError::ContextMismatch)
    } else if signals[2]@[0] > pool.max_tree_depth || signals[4]@[0] > pool.max_tree_depth {
        Some(PoolError::InvalidDepth)
    } else if !pool.is_known_root(signals[1]@) {
        Some(PoolError::UnknownRoot)
    } else if nullifier_recorded {
        Some(PoolError::NullifierSpent)
    } else if !proof_valid {
        Some(PoolError::InvalidProof)
    } else if pool.state_tree_full() {
        Some(PoolError::TreeFull)
    } else {
        None
    }
}

/// What a withdrawal does to the pool record and to the nullifier record, and what it
/// returns.
pub open spec fn withdraw_spec(
    pre: PoolStateLeanIMT,
    post: PoolStateLeanIMT,
    pre_record: Option<NullifierStateZC>,
    post_record: Option<NullifierStateZC>,
    signer: Seq<u8>,
    signed: bool,
    processooor: Seq<u8>,
    data: Seq<u8>,
    signals: Seq<[u8; 32]>,
    proof_valid: bool,
    result: Result<(), PoolError>,
) -> bool {
    match withdraw_error(
        pre@,
        pre_record is Some,
        signer,
        signed,
        processooor,
        data,
        signals,
        proof_valid,
    ) {
        Some(e) => {
            &&& result == Err::<(), PoolError>(e)
            &&& post == pre
            &&& post_record == pre_record
        },
        None => {
            &&& result is Ok
            &&& post@ == pre@.insert_state_commitment(signals[6]@)
            &&& post_record matches Some(record)
            &&& record.is_spent == 1
            &&& record.nullifier_hash == signals[7]
        },
    }
}

/// Processes a withdrawal. `proof_valid` is the verifier's verdict on the proof with its
/// public signals; `nullifier_record` is the record kept for the nullifier hash among the
/// signals, if there is one. On success the nullifier is recorded as spent and the new
/// commitment appended to the state tree, whose root enters the window. A pool that was
/// wound down still pays out.
pub fn withdraw(
    pool: &mut PoolStateLeanIMT,
    nullifier_record: &mut Option<NullifierStateZC>,
    processooor: &Pubkey,
    processooor_signed: bool,
    withdrawal_data: &WithdrawalData,
    proof_data: &WithdrawProofData,
    proof_valid: bool,
) -> (result: Result<(), PoolError>)
    requires
        old(pool)@.wf(),
    ensures
        final(pool)@.wf(),
        withdraw_spec(
            *old(pool),
            *final(pool),
            *old(nullifier_record),
            *final(nullifier_record),
            processooor@,
            processooor_signed,
            withdrawal_data.processooor@,
            withdrawal_data.data@,
            proof_data.public_signals@,
            proof_valid,
            result,
        ),
        result is Ok ==> final(pool)@.is_known_root(final(pool)@.state_tree.root()),
{
    if proof_data.public_signals.len() != WITHDRAW_SIGNALS {
        return Err(PoolError::InvalidInstructionData);
    }
    if !arrays_equal(processooor, &withdrawal_data.processooor) {
        return Err(PoolError::InvalidProcessor);
    }
    if !processooor_signed {
        return Err(PoolError::MissingSignature);
    }
    if pool.is_initialized == 0 {
        return Err(PoolError::NotInitialized);
    }
    let expected_context = compute_context(withdrawal_data, &pool.scope);
    if !arrays_equal(&expected_context, &proof_data.context()) {
        return Err(PoolError::ContextMismatch);
    }
    if proof_data.state_tree_depth() > pool.max_tree_depth || proof_data.asp_tree_depth()
        > pool.max_tree_depth {
        return Err(PoolError::InvalidDepth);
    }
    if !pool.is_known_root(&proof_data.state_root()) {
        return Err(PoolError::UnknownRoot);
    }
    if nullifier_record.is_some() {
        return Err(PoolError::NullifierSpent);
    }
    if !proof_valid {
        return Err(PoolError::InvalidProof);
    }
    match pool.insert_state_commitment(proof_data.new_commitment_hash()) {
        Ok(_) => {},
        Err(e) => {
            return Err(e);
        },
    }
    let mut record = NullifierStateZC::new();
    record.set_spent(proof_data.existing_nullifier_hash());
    *nullifier_record = Some(record);
    Ok(())
}

} // verus!
