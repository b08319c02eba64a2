//! The instruction envelope and the pool's transitions.
//!
//! A transition validates everything before it changes anything: where it fails, the pool
//! record and the records beside it are as they were.

pub mod deposit;
pub mod initialize;
pub mod ragequit;
pub mod types;
pub mod wind_down;
pub mod withdraw;

use crate::error::PoolError;
use crate::instructions::deposit::deposit;
use crate::instructions::deposit::deposit_spec;
use crate::instructions::initialize::initialize_pool;
use crate::instructions::initialize::initialize_pool_spec;
use crate::instructions::ragequit::ragequit;
use crate::instructions::ragequit::ragequit_spec;
use crate::instructions::types::PrivacyPoolInstruction;
use crate::instructions::wind_down::wind_down;
use crate::instructions::wind_down::wind_down_spec;
use crate::instructions::withdraw::withdraw;
use crate::instructions::withdraw::withdraw_spec;
use crate::state::lean_imt::PoolStateLeanIMT;
use crate::state::zero_copy::DepositorStateZC;
use crate::state::zero_copy::NullifierStateZC;
use pinocchio::pubkey::Pubkey;
use vstd::prelude::*;

verus! {

/// What an instruction does to the three records, and what it returns: the transition
/// that the instruction names, with the records that it does not touch left as they were.
pub open spec fn process_instruction_spec(
    instruction: PrivacyPoolInstruction,
    pre: PoolStateLeanIMT,
    post: PoolStateLeanIMT,
    pre_depositor: Option<DepositorStateZC>,
    post_depositor: Option<DepositorStateZC>,
    pre_nullifier: Option<NullifierStateZC>,
    post_nullifier: Option<NullifierStateZC>,
    signer: Seq<u8>,
    signed: bool,
    proof_valid: bool,
    result: Result<(), PoolError>,
) -> bool {
    match instruction {
        PrivacyPoolInstruction::InitializePool {
            entrypoint_authority,
            max_tree_depth,
            asset_mint,
        } => {
            &&& initialize_pool_spec(
                pre,
                post,
                signer,
                signed,
                entrypoint_authority@,
                max_tree_depth,
                asset_mint@,
                result,
            )
            &&& post_depositor == pre_depositor
            &&& post_nullifier == pre_nullifier
        },
        PrivacyPoolInstruction::Deposit { depositor, value, precommitment_hash } => {
            &&& deposit_spec(
                pre,
                post,
                pre_depositor,
                post_depositor,
                signer,
                signed,
                depositor,
                value,
                precommitment_hash@,
                result,
            )
            &&& post_nullifier == pre_nullifier
        },
        PrivacyPoolInstruction::Withdraw { withdrawal_data, proof_data } => {
            &&& withdraw_spec(
                pre,
                post,
                pre_nullifier,
                post_nullifier,
                signer,
                signed,
                withdrawal_data.processooor@,
                withdrawal_data.data@,
                proof_data.public_signals@,
                proof_valid,
                result,
            )
            &&& post_depositor == pre_depositor
        },
        PrivacyPoolInstruction::Ragequit { proof_data } => {
            &&& ragequit_spec(
                pre,
                pre_depositor,
                pre_nullifier,
                post_nullifier,
                signer,
                signed,
                proof_data.public_signals@,
                proof_valid,
                result,
            )
            &&& post == pre
            &&& post_depositor == pre_depositor
        },
        PrivacyPoolInstruction::WindDown => {
            &&& wind_down_spec(pre, post, signer, signed, result)
            &&& post_depositor == pre_depositor
            &&& post_nullifier == pre_nullifier
        },
    }
}

/// Applies `instruction` to the pool record and to the two records that go with it: the
/// depositor record for the label concerned and the nullifier record for the nullifier
/// hash concerned, each absent while nothing was written there. `signer` is the party on
/// whose behalf the instruction comes, `proof_valid` the verifier's verdict on the proof
/// that a withdrawal or a ragequit carries.
pub fn process_instruction(
    instruction: PrivacyPoolInstruction,
    pool: &mut PoolStateLeanIMT,
    depositor_record: &mut Option<DepositorStateZC>,
    nullifier_record: &mut Option<NullifierStateZC>,
    signer: &Pubkey,
    signer_signed: bool,
    proof_valid: bool,
) -> (result: Result<(), PoolError>)
    requires
        instruction is InitializePool || old(pool)@.wf(),
    ensures
        process_instruction_spec(
            instruction,
            *old(pool),
            *final(pool),
            *old(depositor_record),
            *final(depositor_record),
            *old(nullifier_record),
            *final(nullifier_record),
            signer@,
            signer_signed,
            proof_valid,
            result,
        ),
        old(pool)@.wf() || result is Ok ==> final(pool)@.wf(),
{
    match instruction {
        PrivacyPoolInstruction::InitializePool {
            entrypoint_authority,
            max_tree_depth,
            asset_mint,
        } => initialize_pool(
            pool,
            signer,
            signer_signed,
            entrypoint_authority,
            max_tree_depth,
            asset_mint,
        ),
        PrivacyPoolInstruction::Deposit { depositor, value, precommitment_hash } => deposit(
            pool,
            depositor_record,
            signer,
            signer_signed,
            depositor,
            value,
            precommitment_hash,
        ),
        PrivacyPoolInstruction::Withdraw { withdrawal_data, proof_data } => withdraw(
            pool,
            nullifier_record,
            signer,
            signer_signed,
            &withdrawal_data,
            &proof_data,
            proof_valid,
        ),
        PrivacyPoolInstruction::Ragequit { proof_data } => ragequit(
            pool,
            depositor_record,
            nullifier_record,
            signer,
            signer_signed,
            &proof_data,
            proof_valid,
        ),
        PrivacyPoolInstruction::WindDown => wind_down(pool, signer, signer_signed),
    }
}

/// An instruction that fails leaves the pool record, the depositor record and the
/// nullifier record as they were.
pub proof fn lemma_failure_changes_nothing(
    instruction: PrivacyPoolInstruction,
    pre: PoolStateLeanIMT,
    post: PoolStateLeanIMT,
    pre_depositor: Option<DepositorStateZC>,
    post_depositor: Option<DepositorStateZC>,
    pre_nullifier: Option<NullifierStateZC>,
    post_nullifier: Option<NullifierStateZC>,
    signer: Seq<u8>,
    signed: bool,
    proof_valid: bool,
    result: Result<(), PoolError>,
)
    requires
        process_instruction_spec(
            instruction,
            pre,
            post,
            pre_depositor,
            post_depositor,
            pre_nullifier,
            post_nullifier,
            signer,
            signed,
            proof_valid,
            result,
        ),
        result is Err,
    ensures
        post == pre,
        post_depositor == pre_depositor,
        post_nullifier == pre_nullifier,
{
}

/// A nullifier is recorded once at most: an instruction that succeeds and touches the
/// nullifier record finds none and leaves one that is marked spent, and no withdrawal or
/// ragequit succeeds on a nullifier that has a record.
pub proof fn lemma_nullifier_recorded_once(
    instruction: PrivacyPoolInstruction,
    pre: PoolStateLeanIMT,
    post: PoolStateLeanIMT,
    pre_depositor: Option<DepositorStateZC>,
    post_depositor: Option<DepositorStateZC>,
    pre_nullifier: Option<NullifierStateZC>,
    post_nullifier: Option<NullifierStateZC>,
    signer: Seq<u8>,
    signed: bool,
    proof_valid: bool,
    result: Result<(), PoolError>,
)
    requires
        process_instruction_spec(
            instruction,
            pre,
            post,
            pre_depositor,
            post_depositor,
            pre_nullifier,
            post_nullifier,
            signer,
            signed,
            proof_valid,
            result,
        ),
    ensures
        post_nullifier != pre_nullifier ==> ({
            &&& result is Ok
            &&& pre_nullifier is None
            &&& post_nullifier matches Some(record) && record.spent()
        }),
        pre_nullifier is Some && (instruction is Withdraw || instruction is Ragequit)
            ==> result is Err,
        result is Ok && (instruction is Withdraw || instruction is Ragequit)
            ==> post_nullifier is Some,
{
}

/// Across a successful deposit the nonce goes up by exactly one, and the label written
/// to the depositor record is the label of the pool's scope and the new nonce.
pub proof fn lemma_deposit_raises_nonce(
    pre: PoolStateLeanIMT,
    post: PoolStateLeanIMT,
    pre_record: Option<DepositorStateZC>,
    post_record: Option<DepositorStateZC>,
    signer: Seq<u8>,
    signed: bool,
    depositor: Pubkey,
    value: u64,
    precommitment_hash: Seq<u8>,
    result: Result<(), PoolError>,
)
    requires
        pre@.wf(),
        deposit_spec(
            pre,
            post,
            pre_record,
            post_record,
            signer,
            signed,
            depositor,
            value,
            precommitment_hash,
            result,
        ),
        result is Ok,
    ensures
        post.nonce == pre.nonce + 1,
        (post_record matches Some(record) && record.label@
            == crate::crypto::poseidon::spec_compute_label(pre.scope@, post.nonce)),
{
    vstd::arithmetic::power2::lemma2_to64();
}

} // verus!
