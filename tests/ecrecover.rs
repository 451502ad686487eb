use k256::ecdsa::SigningKey;
use secp256k1_precompile::precompile::ec_recover_run;
use secp256k1_precompile::precompile::ecrecover;
use secp256k1_precompile::precompile::has_valid_recovery_byte;
use secp256k1_precompile::precompile::pad_input;
use secp256k1_precompile::precompile::CurveError;
use secp256k1_precompile::precompile::PrecompileError;
use secp256k1_precompile::precompile::ECRECOVER_BASE;
use secp256k1_precompile::scalar::curve_order_bytes;
use secp256k1_precompile::scalar::half_order_bytes;
use secp256k1_precompile::scalar::normalize_s;
use secp256k1_precompile::scalar::sub_be;

fn unhex(s: &str) -> Vec<u8> {
    revm_primitives::hex::decode(s).unwrap()
}

fn address_word(address_hex: &str) -> Vec<u8> {
    let mut word = vec![0u8; 12];
    word.extend(unhex(address_hex));
    word
}

fn frame(digest: &[u8], v: u8, rs: &[u8]) -> Vec<u8> {
    let mut input = digest.to_vec();
    input.extend(vec![0u8; 31]);
    input.push(v);
    input.extend_from_slice(rs);
    input
}

const ORDER_HEX: &str = "fffffffffffffffffffffffffffffffebaaedce6af48a03bbfd25e8cd0364141";
const HALF_ORDER_HEX: &str = "7fffffffffffffffffffffffffffffff5d576e7357a4501ddfe92f46681b20a0";

fn order_minus(s: &[u8; 32]) -> [u8; 32] {
    let order = unhex(ORDER_HEX);
    let mut out = [0u8; 32];
    let mut borrow = 0i16;
    for k in (0..32).rev() {
        let mut d = order[k] as i16 - s[k] as i16 - borrow;
        borrow = 0;
        if d < 0 {
            d += 256;
            borrow = 1;
        }
        out[k] = d as u8;
    }
    out
}

const GETH_INPUT: &str = "38d18acb67d25c8bb9942764b62f18e17054f66a817bd4295423adf9ed98873e000000000000000000000000000000000000000000000000000000000000001b38d18acb67d25c8bb9942764b62f18e17054f66a817bd4295423adf9ed98873e789d1dd423d25f0772d2748d60f7e4b81bb14d086eba8e8e8efb6dcff8a4ae02";

fn key_address_word(key: &SigningKey) -> Vec<u8> {
    let point = key.verifying_key().to_encoded_point(false);
    let mut hash = revm_primitives::keccak256(&point.as_bytes()[1..]).0.to_vec();
    for b in hash.iter_mut().take(12) {
        *b = 0;
    }
    hash
}

#[test]
fn out_of_gas_below_base_cost() {
    let inputs = vec![Vec::new(), unhex(GETH_INPUT), vec![0xffu8; 300]];
    for input in inputs {
        for gas in [0u64, 1, 2999] {
            assert_eq!(ec_recover_run(&input, gas), Err(PrecompileError::OutOfGas));
        }
    }
}

#[test]
fn exact_base_cost_is_enough() {
    let r = ec_recover_run(&unhex(GETH_INPUT), 3000).unwrap();
    assert_eq!(r.0, 3000);
    assert_eq!(r.1.len(), 32);
    let r = ec_recover_run(&unhex(GETH_INPUT), u64::MAX).unwrap();
    assert_eq!(r.0, ECRECOVER_BASE);
}

#[test]
fn empty_input_is_a_soft_failure() {
    assert_eq!(ec_recover_run(&[], 3000), Ok((3000, Vec::new())));
}

#[test]
fn known_vector_recovers_address() {
    let r = ec_recover_run(&unhex(GETH_INPUT), 3000);
    assert_eq!(
        r,
        Ok((3000, address_word("ceaccac640adf55b2028469bd36ba501f28b699d")))
    );
}

#[test]
fn web3_message_signature_recovers_address() {
    let mut message = b"\x19Ethereum Signed Message:\n9".to_vec();
    message.extend_from_slice(b"Some data");
    let digest = revm_primitives::keccak256(&message).0;
    let sig = unhex("b91467e570a6466aa9e9876cbcd013baba02900b8979d43fe208a4a4f339f5fd6007e74cd82e037b800186422fc2da167c747ef045e5d18a5f5d4300f8e1a029");
    let input = frame(&digest, 0x1c, &sig);
    assert_eq!(
        ec_recover_run(&input, 5000),
        Ok((3000, address_word("2c7536e3605d9c16a7a3d7b1898e529396a65c23")))
    );
}

#[test]
fn high_s_signature_recovers_address() {
    let digest = unhex("5eb4f5a33c621f32a8622d5f943b6b102994dfe4e5aebbefe69bb1b2aa0fc93e");
    let rs = unhex("48b55bfa915ac795c431978d8a6a992b628d557da5ff759b307d495a36649353efffd310ac743f371de3b9f7f9cb56c0b28ad43601b4ab949f53faa07bd2c804");
    let expected = address_word("0f65fe9276bc9a24ae7083ae28e2660ef72df99e");
    assert_eq!(ec_recover_run(&frame(&digest, 27, &rs), 3000), Ok((3000, expected.clone())));

    // the same signature with s replaced by n - s and the parity flipped
    let sig = k256::ecdsa::Signature::from_slice(&rs).unwrap();
    let low = sig.normalize_s().unwrap();
    let input = frame(&digest, 28, &low.to_bytes());
    assert_eq!(ec_recover_run(&input, 3000), Ok((3000, expected)));
}

#[test]
fn high_s_round_trip() {
    for seed in [3u8, 9, 77] {
        let key = SigningKey::from_slice(&[seed; 32]).unwrap();
        let digest = revm_primitives::keccak256([seed, 9, 9]).0;
        let (sig, recid) = key.sign_prehash_recoverable(&digest).unwrap();
        let bytes = sig.to_bytes();
        let mut high = [0u8; 64];
        high[..32].copy_from_slice(&bytes[..32]);
        let mut s = [0u8; 32];
        s.copy_from_slice(&bytes[32..]);
        high[32..].copy_from_slice(&order_minus(&s));
        let v = 27 + (recid.to_byte() ^ 1);
        assert_eq!(
            ec_recover_run(&frame(&digest, v, &high), 3000),
            Ok((3000, key_address_word(&key)))
        );
    }
}

#[test]
fn s_at_or_above_order_is_a_soft_failure() {
    let input = unhex(GETH_INPUT);
    let mut rs = input[64..96].to_vec();
    rs.extend(unhex(ORDER_HEX));
    assert_eq!(ec_recover_run(&frame(&input[..32], 27, &rs), 3000), Ok((3000, Vec::new())));
    let mut rs = input[64..96].to_vec();
    rs.extend(vec![0xffu8; 32]);
    assert_eq!(ec_recover_run(&frame(&input[..32], 28, &rs), 3000), Ok((3000, Vec::new())));
}

#[test]
fn normalize_s_boundaries() {
    let order: [u8; 32] = unhex(ORDER_HEX).try_into().unwrap();
    let half: [u8; 32] = unhex(HALF_ORDER_HEX).try_into().unwrap();
    let with_s = |s: &[u8; 32]| {
        let mut rs = [0x11u8; 64];
        rs[32..].copy_from_slice(s);
        rs
    };
    // s = n / 2 is low: unchanged
    assert_eq!(normalize_s(&with_s(&half), 0), (with_s(&half), 0));
    // s = n / 2 + 1 becomes n - s = n / 2, parity flipped
    let mut above = half;
    above[31] += 1;
    assert_eq!(normalize_s(&with_s(&above), 0), (with_s(&half), 1));
    assert_eq!(normalize_s(&with_s(&above), 3), (with_s(&half), 2));
    // s = n - 1 becomes 1
    let mut top = order;
    top[31] -= 1;
    let mut one = [0u8; 32];
    one[31] = 1;
    assert_eq!(normalize_s(&with_s(&top), 1), (with_s(&one), 0));
    assert_eq!(normalize_s(&with_s(&top), 2), (with_s(&one), 3));
    // s = n and s = 0 are not valid scalars: unchanged
    assert_eq!(normalize_s(&with_s(&order), 1), (with_s(&order), 1));
    assert_eq!(normalize_s(&with_s(&[0u8; 32]), 1), (with_s(&[0u8; 32]), 1));
}

#[test]
fn sub_be_difference_and_borrow() {
    let mut a = [0u8; 32];
    a[30] = 1; // 256
    let mut b = [0u8; 32];
    b[31] = 1; // 1
    let mut expected = [0u8; 32];
    expected[31] = 0xff;
    assert_eq!(sub_be(&a, &b), (expected, false));
    // 1 - 256 wraps around 2^256
    let (d, borrow) = sub_be(&b, &a);
    assert!(borrow);
    assert_eq!(d[31], 0x01);
    assert_eq!(d[30], 0xff);
    assert!(d[..30].iter().all(|x| *x == 0xff));
    assert_eq!(sub_be(&a, &a), ([0u8; 32], false));
    let order: [u8; 32] = unhex(ORDER_HEX).try_into().unwrap();
    let half: [u8; 32] = unhex(HALF_ORDER_HEX).try_into().unwrap();
    assert!(!sub_be(&order, &half).1);
    assert!(sub_be(&half, &order).1);
    assert_eq!(curve_order_bytes(), order);
    assert_eq!(half_order_bytes(), half);
}

#[test]
fn short_input_is_zero_padded() {
    let full = unhex(GETH_INPUT);
    for len in [0usize, 31, 63, 64, 100, 127] {
        let short = full[..len].to_vec();
        let mut padded = short.clone();
        padded.resize(128, 0);
        assert_eq!(ec_recover_run(&short, 3000), ec_recover_run(&padded, 3000));
        padded.resize(400, 0);
        assert_eq!(ec_recover_run(&short, 3000), ec_recover_run(&padded, 3000));
    }
}

#[test]
fn short_signature_with_trailing_zeros_recovers() {
    // a signature whose last bytes are zero may be sent without them
    let key = SigningKey::from_slice(&[7u8; 32]).unwrap();
    for counter in 0u32..20000 {
        let digest = revm_primitives::keccak256(counter.to_be_bytes()).0;
        let (sig, recid) = key.sign_prehash_recoverable(&digest).unwrap();
        let bytes = sig.to_bytes();
        if bytes[63] == 0 {
            let full = frame(&digest, 27 + recid.to_byte(), &bytes);
            let short = &full[..127];
            assert_eq!(ec_recover_run(short, 3000), Ok((3000, key_address_word(&key))));
            return;
        }
    }
    panic!("no signature with a trailing zero byte");
}

#[test]
fn excess_input_is_ignored() {
    let mut long = unhex(GETH_INPUT);
    long.extend(vec![0xabu8; 50]);
    assert_eq!(
        ec_recover_run(&long, 3000),
        Ok((3000, address_word("ceaccac640adf55b2028469bd36ba501f28b699d")))
    );
}

#[test]
fn malformed_recovery_byte_is_a_soft_failure() {
    let base = unhex(GETH_INPUT);
    for v in [0u8, 1, 26, 29, 255] {
        let mut input = base.clone();
        input[63] = v;
        assert_eq!(ec_recover_run(&input, 3000), Ok((3000, Vec::new())));
    }
    for k in 32..63 {
        let mut input = base.clone();
        input[k] = 1;
        assert_eq!(ec_recover_run(&input, 3000), Ok((3000, Vec::new())));
    }
}

#[test]
fn flipped_recovery_id_changes_or_drops_address() {
    let original = ec_recover_run(&unhex(GETH_INPUT), 3000).unwrap();
    let mut input = unhex(GETH_INPUT);
    input[63] = 28;
    let flipped = ec_recover_run(&input, 3000).unwrap();
    assert_eq!(flipped.0, 3000);
    assert!(flipped.1.is_empty() || flipped.1 != original.1);
}

#[test]
fn repeated_calls_agree() {
    let inputs = vec![Vec::new(), unhex(GETH_INPUT), vec![1u8; 128]];
    for input in inputs {
        for gas in [0u64, 3000] {
            assert_eq!(ec_recover_run(&input, gas), ec_recover_run(&input, gas));
        }
    }
}

#[test]
fn signed_digest_round_trip() {
    for seed in [1u8, 2, 42, 200] {
        let key = SigningKey::from_slice(&[seed; 32]).unwrap();
        let digest = revm_primitives::keccak256([seed, 1, 2, 3]).0;
        let (sig, recid) = key.sign_prehash_recoverable(&digest).unwrap();
        let input = frame(&digest, 27 + recid.to_byte(), &sig.to_bytes());
        assert_eq!(ec_recover_run(&input, 3000), Ok((3000, key_address_word(&key))));
    }
}

#[test]
fn invalid_scalars_are_soft_failures() {
    let digest = [9u8; 32];
    // r = 0
    let mut rs = vec![0u8; 32];
    rs.extend(vec![1u8; 32]);
    assert_eq!(ec_recover_run(&frame(&digest, 27, &rs), 3000), Ok((3000, Vec::new())));
    // s = 0
    let mut rs = vec![1u8; 32];
    rs.extend(vec![0u8; 32]);
    assert_eq!(ec_recover_run(&frame(&digest, 28, &rs), 3000), Ok((3000, Vec::new())));
    // r at or above the group order
    let rs = vec![0xffu8; 64];
    assert_eq!(ec_recover_run(&frame(&digest, 27, &rs), 3000), Ok((3000, Vec::new())));
}

#[test]
fn ecrecover_returns_address_word() {
    let input = unhex(GETH_INPUT);
    let mut msg = [0u8; 32];
    msg.copy_from_slice(&input[..32]);
    let mut sig = [0u8; 65];
    sig[..64].copy_from_slice(&input[64..128]);
    sig[64] = 0;
    let word = ecrecover(&sig, &msg).unwrap();
    assert_eq!(word.to_vec(), address_word("ceaccac640adf55b2028469bd36ba501f28b699d"));
    assert_eq!(&word[..12], &[0u8; 12]);
}

#[test]
fn ecrecover_rejects_zero_signature() {
    let sig = [0u8; 65];
    assert_eq!(ecrecover(&sig, &[5u8; 32]), Err(CurveError));
}

#[test]
fn pad_input_copies_and_zero_fills() {
    let buf = pad_input(&[1, 2, 3]);
    assert_eq!(&buf[..3], &[1, 2, 3]);
    assert!(buf[3..].iter().all(|b| *b == 0));
    let long: Vec<u8> = (0..200u32).map(|k| k as u8).collect();
    let buf = pad_input(&long);
    assert_eq!(buf.to_vec(), long[..128].to_vec());
}

#[test]
fn recovery_byte_check() {
    let mut buf = [0u8; 128];
    assert!(!has_valid_recovery_byte(&buf));
    buf[63] = 27;
    assert!(has_valid_recovery_byte(&buf));
    buf[63] = 28;
    assert!(has_valid_recovery_byte(&buf));
    buf[40] = 1;
    assert!(!has_valid_recovery_byte(&buf));
    buf[40] = 0;
    buf[0] = 0xff;
    buf[127] = 0xff;
    assert!(has_valid_recovery_byte(&buf));
}
