//! Properties of the precompile that relate several inputs or several calls.

use vstd::prelude::*;

use crate::precompile::address_of_key;
use crate::precompile::ec_recover_output;
use crate::precompile::ec_recover_result;
use crate::precompile::padded_input;
use crate::precompile::recovered_address;
use crate::precompile::recovery_byte_valid;
use crate::precompile::result_view;
use crate::precompile::PrecompileError;
use crate::precompile::ECRECOVER_BASE;
use crate::scalar::normalized_signature;

verus! {

/// `n` zero bytes.
pub open spec fn zeros(n: nat) -> Seq<u8> {
    Seq::new(n, |k: int| 0u8)
}

/// The 128-byte input that frames a digest, a recovery id and the signature
/// bytes `r ‖ s`: the digest, 31 zero bytes, `27 + recid`, then `r ‖ s`.
pub open spec fn framed_input(digest: Seq<u8>, recid: u8, rs: Seq<u8>) -> Seq<u8> {
    digest + zeros(31) + seq![(27 + recid) as u8] + rs
}

/// Below the base fee every input fails with `OutOfGas`.
pub proof fn lemma_out_of_gas(input: Seq<u8>, gas_limit: u64)
    requires
        gas_limit < ECRECOVER_BASE,
    ensures
        ec_recover_result(input, gas_limit) == Err::<(u64, Seq<u8>), PrecompileError>(
            PrecompileError::OutOfGas,
        ),
{
}

/// An input shorter than 128 bytes behaves exactly as the same input with any
/// number of zero bytes appended.
pub proof fn lemma_short_input_zero_padded(input: Seq<u8>, gas_limit: u64, n: nat)
    requires
        input.len() < 128,
    ensures
        ec_recover_result(input, gas_limit) == ec_recover_result(input + zeros(n), gas_limit),
{
    assert(padded_input(input) =~= padded_input(input + zeros(n)));
}

/// With enough gas, an input whose bytes 32..63 are not all zero or whose
/// byte 63 is neither 27 nor 28 costs the base fee and yields no output.
pub proof fn lemma_malformed_recovery_byte(input: Seq<u8>, gas_limit: u64)
    requires
        gas_limit >= ECRECOVER_BASE,
        !recovery_byte_valid(padded_input(input)),
    ensures
        ec_recover_result(input, gas_limit) == Ok::<(u64, Seq<u8>), PrecompileError>(
            (ECRECOVER_BASE, Seq::empty()),
        ),
{
}

/// With enough gas the call succeeds at the base fee, and its output is
/// either empty or a 32-byte word whose first twelve bytes are zero.
pub proof fn lemma_output_shape(input: Seq<u8>, gas_limit: u64)
    requires
        gas_limit >= ECRECOVER_BASE,
    ensures
        ec_recover_result(input, gas_limit) == Ok::<(u64, Seq<u8>), PrecompileError>(
            (ECRECOVER_BASE, ec_recover_output(input)),
        ),
        ec_recover_output(input).len() == 0 || ec_recover_output(input).len() == 32,
        forall|k: int|
            0 <= k < 12 && k < ec_recover_output(input).len() ==> #[trigger] ec_recover_output(
                input,
            )[k] == 0,
{
}

/// Switching a valid recovery byte to the other valid value (27 and 28) never
/// turns the call into an error: it costs the base fee and yields either no
/// output or the address recovered with the other recovery id.
pub proof fn lemma_flipped_recovery_id(input: Seq<u8>, gas_limit: u64)
    requires
        gas_limit >= ECRECOVER_BASE,
        input.len() >= 64,
        recovery_byte_valid(padded_input(input)),
    ensures
        ({
            let flipped = input.update(63, (55 - input[63]) as u8);
            let buf = padded_input(input);
            &&& recovery_byte_valid(padded_input(flipped))
            &&& ec_recover_result(flipped, gas_limit) == Ok::<(u64, Seq<u8>), PrecompileError>(
                (
                    ECRECOVER_BASE,
                    match recovered_address(
                        buf.subrange(0, 32),
                        buf.subrange(64, 128),
                        (28 - input[63]) as u8,
                    ) {
                        Some(address) => address,
                        None => Seq::empty(),
                    },
                ),
            )
        }),
{
    let flipped = input.update(63, (55 - input[63]) as u8);
    let buf = padded_input(input);
    let fbuf = padded_input(flipped);
    assert(fbuf =~= buf.update(63, (55 - input[63]) as u8));
    assert(fbuf.subrange(0, 32) =~= buf.subrange(0, 32));
    assert(fbuf.subrange(64, 128) =~= buf.subrange(64, 128));
}

/// Two calls with the same input and gas limit give the same result: the
/// result is a function of the arguments alone.
pub proof fn lemma_deterministic(
    input: Seq<u8>,
    gas_limit: u64,
    first: Result<(u64, Vec<u8>), PrecompileError>,
    second: Result<(u64, Vec<u8>), PrecompileError>,
)
    requires
        result_view(first) == ec_recover_result(input, gas_limit),
        result_view(second) == ec_recover_result(input, gas_limit),
    ensures
        result_view(first) == result_view(second),
{
}

/// Feeding `digest ‖ 0^31 ‖ (27 + recid) ‖ r ‖ s` through the precompile gives
/// the address derived from the key that the backend recovers from those
/// fields (in low-s form), or no output where it recovers none.
pub proof fn lemma_framed_signature_round_trip(
    digest: Seq<u8>,
    recid: u8,
    rs: Seq<u8>,
    gas_limit: u64,
)
    requires
        digest.len() == 32,
        rs.len() == 64,
        recid <= 1,
        gas_limit >= ECRECOVER_BASE,
    ensures
        ec_recover_result(framed_input(digest, recid, rs), gas_limit) == Ok::<
            (u64, Seq<u8>),
            PrecompileError,
        >(
            (
                ECRECOVER_BASE,
                match recovered_address(digest, rs, recid) {
                    Some(address) => address,
                    None => Seq::empty(),
                },
            ),
        ),
        forall|key: Seq<u8>|
            crate::backend::recovered_key_of(
                digest,
                normalized_signature(rs, recid).0,
                normalized_signature(rs, recid).1,
            ) == Some(key) ==> ec_recover_result(
                framed_input(digest, recid, rs),
                gas_limit,
            ) == Ok::<(u64, Seq<u8>), PrecompileError>((ECRECOVER_BASE, address_of_key(key))),
{
    let input = framed_input(digest, recid, rs);
    let buf = padded_input(input);
    assert(input.len() == 128);
    assert(buf =~= input);
    assert(buf.subrange(0, 32) =~= digest);
    assert(buf.subrange(64, 128) =~= rs);
    assert(buf[63] == 27 + recid);
    assert forall|k: int| 32 <= k < 63 implies buf[k] == 0 by {
        assert(buf[k] == zeros(31)[k - 32]);
    }
}

} // verus!
