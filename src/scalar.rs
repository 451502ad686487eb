//! Big-endian byte strings as unsigned integers, the secp256k1 group order,
//! and the low-s form of an ECDSA signature.

use vstd::prelude::*;

verus! {

/// `256^n`.
pub open spec fn pow256(n: nat) -> nat
    decreases n,
{
    if n == 0 {
        1
    } else {
        256 * pow256((n - 1) as nat)
    }
}

/// The unsigned integer that a byte string encodes, most significant byte
/// first.
pub open spec fn be_value(b: Seq<u8>) -> nat
    decreases b.len(),
{
    if b.len() == 0 {
        0
    } else {
        b[0] as nat * pow256((b.len() - 1) as nat) + be_value(b.drop_first())
    }
}

/// The order n of the secp256k1 group, as 32 big-endian bytes.
pub open spec fn curve_order() -> Seq<u8> {
    seq![
        0xff, 0xff, 0xff, 0xff, 0xff, 0xff, 0xff, 0xff,
        0xff, 0xff, 0xff, 0xff, 0xff, 0xff, 0xff, 0xfe,
        0xba, 0xae, 0xdc, 0xe6, 0xaf, 0x48, 0xa0, 0x3b,
        0xbf, 0xd2, 0x5e, 0x8c, 0xd0, 0x36, 0x41, 0x41,
    ]
}

/// n / 2 rounded down, as 32 big-endian bytes: the largest low `s`.
pub open spec fn half_order() -> Seq<u8> {
    seq![
        0x7f, 0xff, 0xff, 0xff, 0xff, 0xff, 0xff, 0xff,
        0xff, 0xff, 0xff, 0xff, 0xff, 0xff, 0xff, 0xff,
        0x5d, 0x57, 0x6e, 0x73, 0x57, 0xa4, 0x50, 0x1d,
        0xdf, 0xe9, 0x2f, 0x46, 0x68, 0x1b, 0x20, 0xa0,
    ]
}

/// The `s` half of the signature bytes `r ‖ s` lies strictly between n / 2
/// and n: a valid scalar in its high form.
pub open spec fn is_high_s(rs: Seq<u8>) -> bool {
    be_value(half_order()) < be_value(rs.subrange(32, 64)) < be_value(curve_order())
}

/// The signature bytes with `s` replaced by `n - s`.
pub open spec fn low_s_form(rs: Seq<u8>) -> Seq<u8> {
    choose|t: Seq<u8>|
        t.len() == 64 && t.subrange(0, 32) == rs.subrange(0, 32) && be_value(t.subrange(32, 64))
            + be_value(rs.subrange(32, 64)) == be_value(curve_order())
}

/// The recovery id with its y-parity bit switched (0 and 1, 2 and 3).
pub open spec fn flip_parity(recid: u8) -> u8 {
    if recid % 2 == 0 {
        (recid + 1) as u8
    } else {
        (recid - 1) as u8
    }
}

/// A signature and recovery id in the form that recovers the same key with
/// `s` at most n / 2: a high `s` becomes `n - s` and the y-parity flips.
pub open spec fn normalized_signature(rs: Seq<u8>, recid: u8) -> (Seq<u8>, u8) {
    if is_high_s(rs) {
        (low_s_form(rs), flip_parity(recid))
    } else {
        (rs, recid)
    }
}

/// A byte string of length `n` encodes an integer below `256^n`.
pub proof fn lemma_be_value_bound(b: Seq<u8>)
    ensures
        be_value(b) < pow256(b.len()),
    decreases b.len(),
{
    if b.len() > 0 {
        let p = pow256((b.len() - 1) as nat);
        lemma_be_value_bound(b.drop_first());
        let x = b[0] as nat;
        assert(x * p + p <= 256 * p) by (nonlinear_arith)
            requires
                x <= 255,
        ;
    }
}

/// Two byte strings of one length that encode the same integer are equal.
pub proof fn lemma_be_value_injective(a: Seq<u8>, b: Seq<u8>)
    requires
        a.len() == b.len(),
        be_value(a) == be_value(b),
    ensures
        a == b,
    decreases a.len(),
{
    if a.len() > 0 {
        let p = pow256((a.len() - 1) as nat);
        lemma_be_value_bound(a.drop_first());
        lemma_be_value_bound(b.drop_first());
        let x = a[0] as nat;
        let y = b[0] as nat;
        let va = be_value(a.drop_first());
        let vb = be_value(b.drop_first());
        assert(x == y) by (nonlinear_arith)
            requires
                x * p + va == y * p + vb,
                va < p,
                vb < p,
        ;
        lemma_be_value_injective(a.drop_first(), b.drop_first());
        assert(a =~= seq![a[0]] + a.drop_first());
        assert(b =~= seq![b[0]] + b.drop_first());
    }
}

/// Subtracts two 32-byte big-endian integers: the difference modulo
/// `256^32`, and whether `a < b` (the final borrow).
pub fn sub_be(a: &[u8; 32], b: &[u8; 32]) -> (r: ([u8; 32], bool))
    ensures
        be_value(r.0@) + be_value(b@) == be_value(a@) + (if r.1 {
            pow256(32)
        } else {
            0
        }),
        r.1 == (be_value(a@) < be_value(b@)),
{
    let mut out = [0u8; 32];
    let mut borrow: u8 = 0;
    let mut k: usize = 32;
    while k > 0
        invariant
            k <= 32,
            borrow <= 1,
            out@.len() == 32,
            be_value(out@.subrange(k as int, 32)) + be_value(b@.subrange(k as int, 32)) == be_value(
                a@.subrange(k as int, 32),
            ) + borrow as nat * pow256((32 - k) as nat),
        decreases k,
    {
        let i = k - 1;
        let ghost before = out@;
        let ghost old_borrow = borrow as nat;
        let sub: u16 = b[i] as u16 + borrow as u16;
        if a[i] as u16 >= sub {
            out[i] = (a[i] as u16 - sub) as u8;
            borrow = 0;
        } else {
            out[i] = (a[i] as u16 + 256 - sub) as u8;
            borrow = 1;
        }
        proof {
            let p = pow256((32 - k) as nat);
            assert(out@.subrange(k as int, 32) =~= before.subrange(k as int, 32));
            assert(out@.subrange(i as int, 32).drop_first() =~= out@.subrange(k as int, 32));
            assert(a@.subrange(i as int, 32).drop_first() =~= a@.subrange(k as int, 32));
            assert(b@.subrange(i as int, 32).drop_first() =~= b@.subrange(k as int, 32));
            let o = out@[i as int] as nat;
            let x = a@[i as int] as nat;
            let y = b@[i as int] as nat;
            let nb = borrow as nat;
            assert(o + y + old_borrow == x + nb * 256);
            assert(o * p + y * p + old_borrow * p == x * p + nb * (256 * p)) by (nonlinear_arith)
                requires
                    o + y + old_borrow == x + nb * 256,
            ;
            assert(pow256((32 - i) as nat) == 256 * p);
        }
        k = i;
    }
    assert(out@.subrange(0, 32) =~= out@);
    assert(a@.subrange(0, 32) =~= a@);
    assert(b@.subrange(0, 32) =~= b@);
    proof {
        lemma_be_value_bound(out@);
    }
    (out, borrow == 1)
}

/// The secp256k1 group order as bytes.
pub fn curve_order_bytes() -> (r: [u8; 32])
    ensures
        r@ == curve_order(),
{
    let r = [
        0xff, 0xff, 0xff, 0xff, 0xff, 0xff, 0xff, 0xff,
        0xff, 0xff, 0xff, 0xff, 0xff, 0xff, 0xff, 0xfe,
        0xba, 0xae, 0xdc, 0xe6, 0xaf, 0x48, 0xa0, 0x3b,
        0xbf, 0xd2, 0x5e, 0x8c, 0xd0, 0x36, 0x41, 0x41,
    ];
    assert(r@ =~= curve_order());
    r
}

/// n / 2 rounded down as bytes.
pub fn half_order_bytes() -> (r: [u8; 32])
    ensures
        r@ == half_order(),
{
    let r = [
        0x7f, 0xff, 0xff, 0xff, 0xff, 0xff, 0xff, 0xff,
        0xff, 0xff, 0xff, 0xff, 0xff, 0xff, 0xff, 0xff,
        0x5d, 0x57, 0x6e, 0x73, 0x57, 0xa4, 0x50, 0x1d,
        0xdf, 0xe9, 0x2f, 0x46, 0x68, 0x1b, 0x20, 0xa0,
    ];
    assert(r@ =~= half_order());
    r
}

/// Puts the signature bytes `r ‖ s` and recovery id in low-s form: where `s`
/// lies strictly between n / 2 and n it becomes `n - s` and the y-parity bit of
/// the recovery id flips; otherwise both are returned unchanged.
pub fn normalize_s(rs: &[u8; 64], recid: u8) -> (r: ([u8; 64], u8))
    requires
        recid <= 3,
    ensures
        r.0@ == normalized_signature(rs@, recid).0,
        r.1 == normalized_signature(rs@, recid).1,
        r.1 <= 3,
{
    let mut s = [0u8; 32];
    let mut k: usize = 0;
    while k < 32
        invariant
            k <= 32,
            s@.len() == 32,
            forall|j: int| 0 <= j < k ==> s@[j] == rs@[j + 32],
        decreases 32 - k,
    {
        s[k] = rs[32 + k];
        k = k + 1;
    }
    assert(s@ =~= rs@.subrange(32, 64));
    let order = curve_order_bytes();
    let half = half_order_bytes();
    let (_, above_half) = sub_be(&half, &s);
    let (_, below_order) = sub_be(&s, &order);
    if !(above_half && below_order) {
        return (*rs, recid);
    }
    let (low, _) = sub_be(&order, &s);
    let mut out: [u8; 64] = *rs;
    let mut k: usize = 0;
    while k < 32
        invariant
            k <= 32,
            out@.len() == 64,
            forall|j: int| 0 <= j < 32 ==> out@[j] == rs@[j],
            forall|j: int| 32 <= j < 32 + k ==> out@[j] == low@[j - 32],
        decreases 32 - k,
    {
        out[32 + k] = low[k];
        k = k + 1;
    }
    proof {
        assert(out@.subrange(32, 64) =~= low@);
        assert(out@.subrange(0, 32) =~= rs@.subrange(0, 32));
        let t = low_s_form(rs@);
        assert(t.len() == 64 && t.subrange(0, 32) == rs@.subrange(0, 32) && be_value(
            t.subrange(32, 64),
        ) + be_value(rs@.subrange(32, 64)) == be_value(curve_order()));
        lemma_be_value_injective(t.subrange(32, 64), out@.subrange(32, 64));
        assert(t =~= t.subrange(0, 32) + t.subrange(32, 64));
        assert(out@ =~= out@.subrange(0, 32) + out@.subrange(32, 64));
    }
    let flipped: u8 = if recid % 2 == 0 { recid + 1 } else { recid - 1 };
    (out, flipped)
}

} // verus!
