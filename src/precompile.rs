//! The recovery precompile: gas check, input framing, field validation,
//! signature assembly, key recovery and address derivation.

use vstd::prelude::*;
use vstd::slice::slice_subrange;
use vstd::slice::slice_to_vec;

use crate::backend::keccak256;
use crate::backend::keccak256_of;
use crate::backend::recover_verifying_key;
use crate::backend::recovered_key_of;
use crate::scalar::normalize_s;
use crate::scalar::normalized_signature;

verus! {

/// The flat gas fee charged by every call that has enough gas.
pub const ECRECOVER_BASE: u64 = 3000;

/// The number of input bytes the precompile reads.
pub const INPUT_LEN: usize = 128;

/// The one failure a caller sees as an error.
#[derive(Debug, Clone, Copy, PartialEq, Eq, Structural)]
pub enum PrecompileError {
    OutOfGas,
}

/// Any failure of the curve backend to recover a key.
#[derive(Debug, Clone, Copy, PartialEq, Eq, Structural)]
pub struct CurveError;

/// The 32-byte address word for an uncompressed SEC1 key encoding: keccak256
/// of the coordinates (the leading tag byte dropped) with the first twelve
/// bytes cleared.
pub open spec fn address_of_key(key: Seq<u8>) -> Seq<u8> {
    let h = keccak256_of(key.subrange(1, key.len() as int));
    Seq::new(32, |k: int| if k < 12 { 0u8 } else { h[k] })
}

/// The address word recovered from a digest, the 64 signature bytes `r ‖ s`
/// and a recovery id, or `None` where the backend rejects them. A high `s` is
/// first put in its low form (`n - s`, y-parity flipped), which recovers the
/// same key, so that both halves of the range are accepted.
pub open spec fn recovered_address(digest: Seq<u8>, rs: Seq<u8>, recid: u8) -> Option<Seq<u8>> {
    let (low_rs, low_recid) = normalized_signature(rs, recid);
    match recovered_key_of(digest, low_rs, low_recid) {
        Some(key) => Some(address_of_key(key)),
        None => None,
    }
}

/// The first 128 bytes of `input`, zero-padded on the right.
pub open spec fn padded_input(input: Seq<u8>) -> Seq<u8> {
    Seq::new(INPUT_LEN as nat, |k: int| if k < input.len() { input[k] } else { 0u8 })
}

/// Bytes 32..63 of the buffer are zero and byte 63 is 27 or 28.
pub open spec fn recovery_byte_valid(buf: Seq<u8>) -> bool {
    &&& forall|k: int| 32 <= k < 63 ==> buf[k] == 0
    &&& (buf[63] == 27 || buf[63] == 28)
}

/// The output for an input once the gas check has passed: the recovered
/// address word, or nothing on any soft failure.
pub open spec fn ec_recover_output(input: Seq<u8>) -> Seq<u8> {
    let buf = padded_input(input);
    if !recovery_byte_valid(buf) {
        Seq::empty()
    } else {
        match recovered_address(
            buf.subrange(0, 32),
            buf.subrange(64, 128),
            (buf[63] - 27) as u8,
        ) {
            Some(address) => address,
            None => Seq::empty(),
        }
    }
}

/// What a call of the precompile returns: `OutOfGas` below the base fee,
/// otherwise the base fee and the output.
pub open spec fn ec_recover_result(input: Seq<u8>, gas_limit: u64) -> Result<
    (u64, Seq<u8>),
    PrecompileError,
> {
    if gas_limit < ECRECOVER_BASE {
        Err(PrecompileError::OutOfGas)
    } else {
        Ok((ECRECOVER_BASE, ec_recover_output(input)))
    }
}

/// The mathematical value of a precompile result.
pub open spec fn result_view(r: Result<(u64, Vec<u8>), PrecompileError>) -> Result<
    (u64, Seq<u8>),
    PrecompileError,
> {
    match r {
        Ok((gas, out)) => Ok((gas, out@)),
        Err(e) => Err(e),
    }
}

/// Recovers the address word for the 65-byte signature `r ‖ s ‖ recovery id`
/// over the digest `msg`.
pub fn ecrecover(sig: &[u8; 65], msg: &[u8; 32]) -> (r: Result<[u8; 32], CurveError>)
    requires
        sig@[64] <= 3,
    ensures
        match recovered_address(msg@, sig@.subrange(0, 64), sig@[64]) {
            Some(address) => r is Ok && r->Ok_0@ == address,
            None => r is Err,
        },
        r is Ok ==> ({
            let (low_rs, low_recid) = normalized_signature(sig@.subrange(0, 64), sig@[64]);
            match recovered_key_of(msg@, low_rs, low_recid) {
                Some(key) => key.len() == 65 && key[0] == 4 && r->Ok_0@ == address_of_key(key),
                None => false,
            }
        }),
{
    let mut rs = [0u8; 64];
    let mut k: usize = 0;
    while k < 64
        invariant
            k <= 64,
            rs@.len() == 64,
            forall|j: int| 0 <= j < k ==> rs@[j] == sig@[j],
        decreases 64 - k,
    {
        rs[k] = sig[k];
        k = k + 1;
    }
    assert(rs@ =~= sig@.subrange(0, 64));
    let (low_rs, low_recid) = normalize_s(&rs, sig[64]);
    let key = match recover_verifying_key(msg, low_rs.as_slice(), low_recid) {
        Ok(key) => key,
        Err(_) => return Err(CurveError),
    };
    let mut hash = keccak256(slice_subrange(key.as_slice(), 1, key.len()));
    let ghost h = hash@;
    let mut k: usize = 0;
    while k < 12
        invariant
            k <= 12,
            hash@.len() == 32,
            forall|j: int| 0 <= j < k ==> hash@[j] == 0,
            forall|j: int| k <= j < 32 ==> hash@[j] == h[j],
        decreases 12 - k,
    {
        hash[k] = 0;
        k = k + 1;
    }
    assert(hash@ =~= address_of_key(key@));
    Ok(hash)
}

/// The first 128 bytes of `input`, zero-padded on the right.
pub fn pad_input(input: &[u8]) -> (buf: [u8; 128])
    ensures
        buf@ == padded_input(input@),
{
    let mut buf = [0u8; 128];
    let n: usize = if input.len() < INPUT_LEN { input.len() } else { INPUT_LEN };
    let mut k: usize = 0;
    while k < n
        invariant
            n <= 128,
            n <= input@.len(),
            n == 128 || n == input@.len(),
            k <= n,
            buf@.len() == 128,
            forall|j: int| 0 <= j < k ==> buf@[j] == input@[j],
            forall|j: int| k <= j < 128 ==> buf@[j] == 0,
        decreases n - k,
    {
        buf[k] = input[k];
        k = k + 1;
    }
    assert(buf@ =~= padded_input(input@));
    buf
}

/// Whether bytes 32..63 of the buffer are zero and byte 63 is 27 or 28.
pub fn has_valid_recovery_byte(buf: &[u8; 128]) -> (r: bool)
    ensures
        r == recovery_byte_valid(buf@),
{
    let mut k: usize = 32;
    while k < 63
        invariant
            32 <= k <= 63,
            forall|j: int| 32 <= j < k ==> buf@[j] == 0,
        decreases 63 - k,
    {
        if buf[k] != 0 {
            return false;
        }
        k = k + 1;
    }
    buf[63] == 27 || buf[63] == 28
}

/// Runs the precompile on `i` with `target_gas` available.
pub fn ec_recover_run(i: &[u8], target_gas: u64) -> (r: Result<
    (u64, Vec<u8>),
    PrecompileError,
>)
    ensures
        result_view(r) == ec_recover_result(i@, target_gas),
        r is Err <==> target_gas < ECRECOVER_BASE,
        r is Err ==> r->Err_0 == PrecompileError::OutOfGas,
        r is Ok ==> r->Ok_0.0 == ECRECOVER_BASE,
        target_gas >= ECRECOVER_BASE && !recovery_byte_valid(padded_input(i@)) ==> r is Ok
            && r->Ok_0.1@.len() == 0,
{
    if ECRECOVER_BASE > target_gas {
        return Err(PrecompileError::OutOfGas);
    }
    let input = pad_input(i);
    let mut msg = [0u8; 32];
    let mut sig = [0u8; 65];
    let mut k: usize = 0;
    while k < 32
        invariant
            k <= 32,
            input@ == padded_input(i@),
            msg@.len() == 32,
            sig@.len() == 65,
            forall|j: int| 0 <= j < k ==> msg@[j] == input@[j],
            forall|j: int| 0 <= j < k ==> sig@[j] == input@[j + 64],
            forall|j: int| 32 <= j < 32 + k ==> sig@[j] == input@[j + 64],
        decreases 32 - k,
    {
        msg[k] = input[k];
        sig[k] = input[64 + k];
        sig[32 + k] = input[96 + k];
        k = k + 1;
    }
    if !has_valid_recovery_byte(&input) {
        return Ok((ECRECOVER_BASE, Vec::new()));
    }
    sig[64] = input[63] - 27;
    assert(msg@ =~= input@.subrange(0, 32));
    assert(sig@.subrange(0, 64) =~= input@.subrange(64, 128));
    let out = match ecrecover(&sig, &msg) {
        Ok(hash) => slice_to_vec(hash.as_slice()),
        Err(_) => Vec::new(),
    };
    Ok((ECRECOVER_BASE, out))
}

} // verus!
