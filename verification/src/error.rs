//! Reasons for which the engine rejects an input.

use vstd::prelude::*;

verus! {

/// Why the engine turned an input down.
#[derive(Clone, Copy, Debug, PartialEq, Eq, Structural)]
pub enum PoolError {
    /// The instruction envelope is malformed, truncated or followed by stray bytes.
    InvalidInstructionData,
    /// A persisted record does not have the length of its layout.
    InvalidAccountData,
    /// The pool record has not been initialized.
    NotInitialized,
    /// The pool record is initialized already.
    AlreadyInitialized,
    /// A required signer did not sign.
    MissingSignature,
    /// A depth out of range, or a caller that is not the named depositor.
    InvalidArgument,
    /// A deposit into a pool that has been wound down.
    PoolDead,
    /// The tree holds as many leaves as it may.
    TreeFull,
    /// The signer is not the processor that the withdrawal names.
    InvalidProcessor,
    /// The context among the public signals is not the one recomputed from the withdrawal.
    ContextMismatch,
    /// A depth among the public signals exceeds the pool's greatest depth.
    InvalidDepth,
    /// The state root among the public signals is not in the window of recent roots.
    UnknownRoot,
    /// The nullifier has been recorded before.
    NullifierSpent,
    /// The proof was not accepted by the verifier.
    InvalidProof,
    /// The ragequitter is not the depositor on record for the label.
    NotOriginalDepositor,
}

} // verus!
