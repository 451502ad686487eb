//! The two outside capabilities the precompile relies on: the Keccak-256 hash
//! and secp256k1 public-key recovery. Everything here is taken on trust from
//! the outside crates; the logic around it is verified elsewhere.

use vstd::prelude::*;

use crate::scalar::be_value;
use crate::scalar::curve_order;
use crate::scalar::is_high_s;

verus! {

/// The Keccak-256 digest of a byte string.
pub uninterp spec fn keccak256_of(data: Seq<u8>) -> Seq<u8>;

/// The SEC1 encoding of the verifying key that secp256k1 recovery yields for a
/// 32-byte prehash, a 64-byte `r ‖ s` signature and a recovery id, or `None`
/// where recovery fails.
pub uninterp spec fn recovered_key_of(digest: Seq<u8>, rs: Seq<u8>, recid: u8) -> Option<Seq<u8>>;

#[verifier::external_type_specification]
#[verifier::external_body]
pub struct ExCurveError(k256::ecdsa::Error);

/// Relies on `revm_primitives::keccak256` (alloy-primitives' `keccak256`): the
/// 32-byte Keccak-256 digest of `data`, which depends on the bytes alone.
#[verifier::external_body]
pub(crate) fn keccak256(data: &[u8]) -> (r: [u8; 32])
    ensures
        r@ == keccak256_of(data@),
{
    revm_primitives::keccak256(data).0
}

/// Relies on k256's `RecoveryId::from_byte` (accepts any byte up to 3),
/// `Signature::from_slice` (parses the 64 bytes `r ‖ s`, and fails unless
/// both lie in `1..n`), `VerifyingKey::recover_from_prehash` (a deterministic
/// computation on its arguments that fails with `ecdsa::Error` on an
/// unrecoverable point, and on a high `s`, since it checks its result with
/// k256's `verify_prehashed`, which refuses `s > n / 2`) and
/// `VerifyingKey::to_encoded_point(false)`, which for a key (never the
/// identity) is the 65-byte uncompressed SEC1 form, tag 0x04.
#[verifier::external_body]
pub(crate) fn recover_verifying_key(digest: &[u8; 32], rs: &[u8], recid: u8) -> (r: Result<
    Vec<u8>,
    k256::ecdsa::Error,
>)
    requires
        recid <= 3,
    ensures
        match r {
            Ok(key) => recovered_key_of(digest@, rs@, recid) == Some(key@) && key@.len() == 65
                && key@[0] == 4,
            Err(_) => recovered_key_of(digest@, rs@, recid) is None,
        },
        rs@.len() != 64 ==> r is Err,
        rs@.len() == 64 && (be_value(rs@.subrange(0, 32)) == 0 || be_value(rs@.subrange(0, 32))
            >= be_value(curve_order()) || be_value(rs@.subrange(32, 64)) == 0 || be_value(
            rs@.subrange(32, 64),
        ) >= be_value(curve_order())) ==> r is Err,
        rs@.len() == 64 && is_high_s(rs@) ==> r is Err,
{
    let id = k256::ecdsa::RecoveryId::from_byte(recid).expect("recovery id is at most 3");
    let signature = k256::ecdsa::Signature::from_slice(rs)?;
    let key = k256::ecdsa::VerifyingKey::recover_from_prehash(digest, &signature, id)?;
    Ok(key.to_encoded_point(false).as_bytes().to_vec())
}

} // verus!
