//! Public-key recovery precompile over secp256k1: strict 128-byte input framing,
//! flat gas accounting, and the recovered address as keccak256 of the key with
//! its upper twelve bytes cleared.

use vstd::prelude::*;

pub mod backend;
pub mod laws;
pub mod precompile;
pub mod scalar;

verus! {

} // verus!
