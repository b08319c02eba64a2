//! Protocol state engine of a privacy pool: Poseidon and Keccak derivations over the BN254
//! scalar field, the lean incremental Merkle tree, the window of recent roots, and the
//! pool's transitions with their validation rules.

pub mod constants;
pub mod crypto;
pub mod error;
pub mod instructions;
pub mod state;
pub mod utils;

use crate::error::PoolError;
use vstd::prelude::*;

verus! {

/// A value with a fixed byte layout.
pub trait BorshSerialize {
    /// The bytes of the value in its layout.
    spec fn layout(&self) -> Seq<u8>;

    /// Writes the value out in its layout.
    fn try_to_vec(&self) -> (result: Result<Vec<u8>, PoolError>)
        ensures
            result matches Ok(bytes) && bytes@ == self.layout(),
    ;
}

/// A value that can be read back from bytes.
pub trait BorshDeserialize: Sized {
    /// `data` has the shape of a value of this type.
    spec fn well_formed(data: Seq<u8>) -> bool;

    /// `value` is what well-formed `data` holds.
    spec fn decodes(data: Seq<u8>, value: Self) -> bool;

    /// Reads a value from `data`; fails exactly where `data` is not well formed.
    fn try_from_slice(data: &[u8]) -> (result: Result<Self, PoolError>)
        ensures
            result is Ok <==> Self::well_formed(data@),
            result matches Ok(value) ==> Self::decodes(data@, value),
    ;
}

} // verus!
