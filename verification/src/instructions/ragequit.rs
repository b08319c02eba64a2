//! Ragequit: the original depositor takes a deposit back and spends its nullifier.

use crate::error::PoolError;
use crate::instructions::types::RagequitProofData;
use crate::instructions::types::RAGEQUIT_SIGNALS;
use crate::state::lean_imt::PoolStateLeanIMT;
use crate::state::lean_imt::PoolView;
use crate::state::zero_copy::DepositorStateZC;
use crate::state::zero_copy::NullifierStateZC;
use crate::utils::arrays_equal;
use pinocchio::pubkey::Pubkey;
use vstd::prelude::*;

verus! {

/// The record names `ragequitter` as the depositor under `label`.
pub open spec fn is_original_depositor(
    depositor_record: Option<DepositorStateZC>,
    ragequitter: Seq<u8>,
    label: Seq<u8>,
) -> bool {
    depositor_record matches Some(record) && record.depositor@ == ragequitter && record.label@
        == label
}

/// Why a ragequit is turned down, if it is. The checks come in this order, and the first
/// that fails names the error.
pub open spec fn ragequit_error(
    pool: PoolView,
    depositor_record: Option<DepositorStateZC>,
    nullifier_recorded: bool,
    ragequitter: Seq<u8>,
    signed: bool,
    signals: Seq<[u8; 32]>,
    proof_valid: bool,
) -> Option<PoolError> {
    if signals.len() != RAGEQUIT_SIGNALS {
        Some(PoolError::InvalidInstructionData)
    } else if !signed {
        Some(PoolError::MissingSignature)
    } else if !pool.is_initialized {
        Some(PoolError::NotInitialized)
    } else if !is_original_depositor(depositor_record, ragequitter, signals[1]@) {
        Some(PoolError::NotOriginalDepositor)
    } else if nullifier_recorded {
        Some(PoolError::NullifierSpent)
    } else if !proof_valid {
        Some(PoolError::InvalidProof)
    } else {
        None
    }
}

/// What a ragequit does to the nullifier record, and what it returns.
pub open spec fn ragequit_spec(
    pool: PoolStateLeanIMT,
    depositor_record: Option<DepositorStateZC>,
    pre_record: Option<NullifierStateZC>,
    post_record: Option<NullifierStateZC>,
    ragequitter: Seq<u8>,
    signed: bool,
    signals: Seq<[u8; 32]>,
    proof_valid: bool,
    result: Result<(), PoolError>,
) -> bool {
    match ragequit_error(
        pool@,
        depositor_record,
        pre_record is Some,
        ragequitter,
        signed,
        signals,
        proof_valid,
    ) {
        Some(e) => result == Err::<(), PoolError>(e) && post_record == pre_record,
        None => {
            &&& result is Ok
            &&& post_record matches Some(record)
            &&& record.is_spent == 1
            &&& record.nullifier_hash == signals[3]
        },
    }
}

/// Processes a ragequit. `depositor_record` is the record kept for the label among the
/// signals, `nullifier_record` the one kept for the nullifier hash, each if there is one;
/// `proof_valid` is the verifier's verdict. On success the nullifier is recorded as
/// spent. The trees stay as they are: the commitment remains, and its spent nullifier
/// bars its withdrawal.
pub fn ragequit(
    pool: &PoolStateLeanIMT,
    depositor_record: &Option<DepositorStateZC>,
    nullifier_record: &mut Option<NullifierStateZC>,
    ragequitter: &Pubkey,
    ragequitter_signed: bool,
    proof_data: &RagequitProofData,
    proof_valid: bool,
) -> (result: Result<(), PoolError>)
    ensures
        ragequit_spec(
            *pool,
            *depositor_record,
            *old(nullifier_record),
            *final(nullifier_record),
            ragequitter@,
            ragequitter_signed,
            proof_data.public_signals@,
            proof_valid,
            result,
        ),
{
    if proof_data.public_signals.len() != RAGEQUIT_SIGNALS {
        return Err(PoolError::InvalidInstructionData);
    }
    if !ragequitter_signed {
        return Err(PoolError::MissingSignature);
    }
    if pool.is_initialized == 0 {
        return Err(PoolError::NotInitialized);
    }
    match depositor_record {
        Some(record) => {
            if !arrays_equal(&record.depositor, ragequitter) || !arrays_equal(
                &record.label,
                &proof_data.label(),
            ) {
                return Err(PoolError::NotOriginalDepositor);
            }
        },
        None => {
            return Err(PoolError::NotOriginalDepositor);
        },
    }
    if nullifier_record.is_some() {
        return Err(PoolError::NullifierSpent);
    }
    if !proof_valid {
        return Err(PoolError::InvalidProof);
    }
    let mut record = NullifierStateZC::new();
    record.set_spent(proof_data.nullifier_hash());
    *nullifier_record = Some(record);
    Ok(())
}

} // verus!
