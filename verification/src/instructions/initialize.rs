//! Initialization of a pool record.

use crate::constants::MAX_TREE_DEPTH;
use crate::crypto::poseidon::zero_digest;
use crate::error::PoolError;
use crate::state::lean_imt::spec_generate_scope;
use crate::state::lean_imt::PoolStateLeanIMT;
use crate::state::lean_imt::PoolView;
use pinocchio::pubkey::Pubkey;
use vstd::prelude::*;

verus! {

/// Why an initialization is turned down, if it is.
pub open spec fn initialize_error(pool: PoolView, signed: bool, max_tree_depth: u8) -> Option<
    PoolError,
> {
    if !signed {
        Some(PoolError::MissingSignature)
    } else if max_tree_depth == 0 || max_tree_depth > MAX_TREE_DEPTH {
        Some(PoolError::InvalidArgument)
    } else if pool.is_initialized {
        Some(PoolError::AlreadyInitialized)
    } else {
        None
    }
}

/// The record that an initialization leaves.
pub open spec fn initialize_pool_state(
    authority: Seq<u8>,
    entrypoint_authority: Seq<u8>,
    max_tree_depth: u8,
    asset_mint: Seq<u8>,
) -> PoolView {
    PoolView::initial(
        authority,
        asset_mint,
        entrypoint_authority,
        zero_digest(),
        spec_generate_scope(asset_mint),
        max_tree_depth as nat,
    )
}

/// What an initialization does to the pool record, and what it returns.
pub open spec fn initialize_pool_spec(
    pre: PoolStateLeanIMT,
    post: PoolStateLeanIMT,
    authority: Seq<u8>,
    authority_signed: bool,
    entrypoint_authority: Seq<u8>,
    max_tree_depth: u8,
    asset_mint: Seq<u8>,
    result: Result<(), PoolError>,
) -> bool {
    match initialize_error(pre@, authority_signed, max_tree_depth) {
        Some(e) => result == Err::<(), PoolError>(e) && post == pre,
        None => result is Ok && post@ == initialize_pool_state(
            authority,
            entrypoint_authority,
            max_tree_depth,
            asset_mint,
        ),
    }
}

/// Initializes `pool` for `asset_mint`, with `authority` as its creator. The caller must
/// have signed, the depth must lie in `1..=32`, and the record must be uninitialized.
pub fn initialize_pool(
    pool: &mut PoolStateLeanIMT,
    authority: &Pubkey,
    authority_signed: bool,
    entrypoint_authority: Pubkey,
    max_tree_depth: u8,
    asset_mint: Pubkey,
) -> (result: Result<(), PoolError>)
    ensures
        initialize_pool_spec(
            *old(pool),
            *final(pool),
            authority@,
            authority_signed,
            entrypoint_authority@,
            max_tree_depth,
            asset_mint@,
            result,
        ),
        result is Ok ==> final(pool)@.wf(),
{
    if !authority_signed {
        return Err(PoolError::MissingSignature);
    }
    if max_tree_depth == 0 || max_tree_depth > MAX_TREE_DEPTH {
        return Err(PoolError::InvalidArgument);
    }
    if pool.is_initialized != 0 {
        return Err(PoolError::AlreadyInitialized);
    }
    let scope = PoolStateLeanIMT::generate_scope(&asset_mint);
    let withdrawal_verifier: Pubkey = [0u8; 32];
    assert(withdrawal_verifier@ =~= zero_digest());
    pool.initialize(
        *authority,
        asset_mint,
        entrypoint_authority,
        withdrawal_verifier,
        scope,
        max_tree_depth,
    );
    Ok(())
}

} // verus!
