//! Winding a pool down: deposits stop, withdrawals and ragequits go on.

use crate::error::PoolError;
use crate::state::lean_imt::PoolStateLeanIMT;
use crate::state::lean_imt::PoolView;
use crate::utils::arrays_equal;
use pinocchio::pubkey::Pubkey;
use vstd::prelude::*;

verus! {

/// Why a wind-down is turned down, if it is.
pub open spec fn wind_down_error(pool: PoolView, signer: Seq<u8>, signed: bool) -> Option<
    PoolError,
> {
    if !signed {
        Some(PoolError::MissingSignature)
    } else if !pool.is_initialized {
        Some(PoolError::NotInitialized)
    } else if pool.entrypoint != signer {
        Some(PoolError::InvalidArgument)
    } else if pool.is_dead {
        Some(PoolError::PoolDead)
    } else {
        None
    }
}

/// What a wind-down does to the pool record, and what it returns.
pub open spec fn wind_down_spec(
    pre: PoolStateLeanIMT,
    post: PoolStateLeanIMT,
    signer: Seq<u8>,
    signed: bool,
    result: Result<(), PoolError>,
) -> bool {
    match wind_down_error(pre@, signer, signed) {
        Some(e) => result == Err::<(), PoolError>(e) && post == pre,
        None => result is Ok && post@ == (PoolView { is_dead: true, ..pre@ }),
    }
}

/// Marks the pool as dead. Only the entrypoint authority may do so, and only once.
pub fn wind_down(
    pool: &mut PoolStateLeanIMT,
    entrypoint: &Pubkey,
    entrypoint_signed: bool,
) -> (result: Result<(), PoolError>)
    requires
        old(pool)@.wf(),
    ensures
        final(pool)@.wf(),
        wind_down_spec(*old(pool), *final(pool), entrypoint@, entrypoint_signed, result),
{
    if !entrypoint_signed {
        return Err(PoolError::MissingSignature);
    }
    if pool.is_initialized == 0 {
        return Err(PoolError::NotInitialized);
    }
    if !arrays_equal(&pool.entrypoint, entrypoint) {
        return Err(PoolError::InvalidArgument);
    }
    if pool.is_dead != 0 {
        return Err(PoolError::PoolDead);
    }
    pool.is_dead = 1;
    Ok(())
}

} // verus!
