//! Deposits: a commitment enters the state tree, its label the approved-set tree.

use crate::crypto::poseidon::compute_commitment;
use crate::crypto::poseidon::compute_label;
use crate::crypto::poseidon::spec_compute_commitment;
use crate::crypto::poseidon::spec_compute_label;
use crate::error::PoolError;
use crate::state::lean_imt::PoolStateLeanIMT;
use crate::state::lean_imt::PoolView;
use crate::state::zero_copy::DepositorStateZC;
use crate::utils::arrays_equal;
use pinocchio::pubkey::Pubkey;
use vstd::arithmetic::power2::lemma2_to64;
use vstd::arithmetic::power2::lemma_pow2_strictly_increases;
use vstd::prelude::*;

verus! {

/// Why a deposit is turned down, if it is.
pub open spec fn deposit_error(
    pool: PoolView,
    signer: Seq<u8>,
    signed: bool,
    depositor: Seq<u8>,
) -> Option<PoolError> {
    if !signed {
        Some(PoolError::MissingSignature)
    } else if signer != depositor {
        Some(PoolError::InvalidArgument)
    } else if !pool.is_initialized {
        Some(PoolError::NotInitialized)
    } else if pool.is_dead {
        Some(PoolError::PoolDead)
    } else if pool.state_tree_full() || pool.asp_tree_full() {
        Some(PoolError::TreeFull)
    } else {
        None
    }
}

/// The label of the pool's next deposit: it depends on the scope and the new nonce alone.
pub open spec fn deposit_label(pool: PoolView) -> Seq<u8> {
    spec_compute_label(pool.scope, (pool.nonce + 1) as u64)
}

/// The commitment that the pool's next deposit appends.
pub open spec fn deposit_commitment(pool: PoolView, value: u64, precommitment_hash: Seq<u8>) -> Seq<
    u8,
> {
    spec_compute_commitment(value, deposit_label(pool), precommitment_hash)
}

/// The record that a deposit leaves: the nonce counts one more, the commitment is
/// appended to the state tree and the new root pushed into the window, and the label is
/// appended to the approved-set tree.
pub open spec fn deposit_pool_state(
    pool: PoolView,
    value: u64,
    precommitment_hash: Seq<u8>,
) -> PoolView {
    pool.increment_nonce().insert_state_commitment(
        deposit_commitment(pool, value, precommitment_hash),
    ).insert_asp_label(deposit_label(pool))
}

/// What a deposit does to the pool record and to the depositor record, and what it
/// returns.
pub open spec fn deposit_spec(
    pre: PoolStateLeanIMT,
    post: PoolStateLeanIMT,
    pre_record: Option<DepositorStateZC>,
    post_record: Option<DepositorStateZC>,
    signer: Seq<u8>,
    signed: bool,
    depositor: Pubkey,
    value: u64,
    precommitment_hash: Seq<u8>,
    result: Result<(), PoolError>,
) -> bool {
    match deposit_error(pre@, signer, signed, depositor@) {
        Some(e) => {
            &&& result == Err::<(), PoolError>(e)
            &&& post == pre
            &&& post_record == pre_record
        },
        None => {
            &&& result is Ok
            &&& post@ == deposit_pool_state(pre@, value, precommitment_hash)
            &&& post_record matches Some(record)
            &&& record.depositor == depositor
            &&& record.label@ == deposit_label(pre@)
        },
    }
}

/// Deposits `value` for `depositor` under `precommitment_hash`, and writes the depositor
/// record of the new label. The signer must be the depositor, the pool live, and both
/// trees below the capacity that the pool's greatest depth allows.
pub fn deposit(
    pool: &mut PoolStateLeanIMT,
    depositor_record: &mut Option<DepositorStateZC>,
    depositor_signer: &Pubkey,
    signer_signed: bool,
    depositor: Pubkey,
    value: u64,
    precommitment_hash: [u8; 32],
) -> (result: Result<(), PoolError>)
    requires
        old(pool)@.wf(),
    ensures
        final(pool)@.wf(),
        deposit_spec(
            *old(pool),
            *final(pool),
            *old(depositor_record),
            *final(depositor_record),
            depositor_signer@,
            signer_signed,
            depositor,
            value,
            precommitment_hash@,
            result,
        ),
        result is Ok ==> final(pool)@.is_known_root(final(pool)@.state_tree.root()),
{
    if !signer_signed {
        return Err(PoolError::MissingSignature);
    }
    if !arrays_equal(depositor_signer, &depositor) {
        return Err(PoolError::InvalidArgument);
    }
    if pool.is_initialized == 0 {
        return Err(PoolError::NotInitialized);
    }
    if pool.is_dead != 0 {
        return Err(PoolError::PoolDead);
    }
    if pool.is_state_tree_full() || pool.is_asp_tree_full() {
        return Err(PoolError::TreeFull);
    }
    proof {
        lemma2_to64();
        if pool.max_tree_depth < 32 {
            lemma_pow2_strictly_increases(pool.max_tree_depth as nat, 32);
        }
    }
    let nonce = pool.increment_nonce();
    let label = compute_label(&pool.scope, nonce);
    let commitment = compute_commitment(value, &label, &precommitment_hash);
    match pool.insert_state_commitment(commitment) {
        Ok(_) => {},
        Err(e) => {
            return Err(e);
        },
    }
    match pool.insert_asp_label(label) {
        Ok(_) => {},
        Err(e) => {
            return Err(e);
        },
    }
    let mut record = DepositorStateZC::new();
    record.set(depositor, label);
    *depositor_record = Some(record);
    Ok(())
}

} // verus!
