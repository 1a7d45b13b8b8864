//! Canonical byte encodings.
//!
//! Integers are little-endian with a fixed width; collection lengths use the
//! four-mode compact integer form; node summaries are a tag byte followed by
//! their fields. Every encoding is deterministic and every decoder accepts
//! exactly what the encoder produces, which the round-trip lemmas state.

use vstd::prelude::*;
use vstd::arithmetic::div_mod::lemma_mod_breakdown;
use crate::merge::{MvV, MergeValue, BranchNode};

verus! {

/// 256 to the power `n`: the number of values of an `n`-byte string.
pub open spec fn pow256(n: nat) -> nat
    decreases n,
{
    if n == 0 {
        1
    } else {
        256 * pow256((n - 1) as nat)
    }
}

/// The `n` little-endian bytes of `x`.
pub open spec fn le_bytes(x: nat, n: nat) -> Seq<u8>
    decreases n,
{
    if n == 0 {
        Seq::empty()
    } else {
        seq![(x % 256) as u8] + le_bytes(x / 256, (n - 1) as nat)
    }
}

/// The value of a little-endian byte string.
pub open spec fn le_val(s: Seq<u8>) -> nat
    decreases s.len(),
{
    if s.len() == 0 {
        0
    } else {
        (s[0] + 256 * le_val(s.drop_first())) as nat
    }
}

pub proof fn lemma_pow256_pos(n: nat)
    ensures
        pow256(n) >= 1,
    decreases n,
{
    if n > 0 {
        lemma_pow256_pos((n - 1) as nat);
    }
}

pub proof fn lemma_pow256_increases(a: nat, b: nat)
    requires
        a <= b,
    ensures
        pow256(a) <= pow256(b),
    decreases b,
{
    if a < b {
        lemma_pow256_increases(a, (b - 1) as nat);
        lemma_pow256_pos((b - 1) as nat);
    }
}

pub proof fn lemma_le_bytes_len(x: nat, n: nat)
    ensures
        le_bytes(x, n).len() == n,
    decreases n,
{
    if n > 0 {
        lemma_le_bytes_len(x / 256, (n - 1) as nat);
    }
}

/// A little-endian string reads back as its value, reduced to the width.
pub proof fn lemma_le_val_le_bytes(x: nat, n: nat)
    ensures
        le_val(le_bytes(x, n)) == x % pow256(n),
    decreases n,
{
    lemma_le_bytes_len(x, n);
    if n == 0 {
        assert(pow256(0) == 1);
    } else {
        lemma_le_val_le_bytes(x / 256, (n - 1) as nat);
        lemma_le_bytes_len(x / 256, (n - 1) as nat);
        lemma_pow256_pos((n - 1) as nat);
        assert(le_bytes(x, n).drop_first() =~= le_bytes(x / 256, (n - 1) as nat));
        lemma_mod_breakdown(x as int, 256, pow256((n - 1) as nat) as int);
    }
}

pub proof fn lemma_le_val_bound(s: Seq<u8>)
    ensures
        le_val(s) < pow256(s.len()),
    decreases s.len(),
{
    if s.len() > 0 {
        lemma_le_val_bound(s.drop_first());
    }
}

/// Byte `k` of the little-endian form of `x`.
pub proof fn lemma_le_bytes_index(x: nat, n: nat, k: int)
    requires
        0 <= k < n,
    ensures
        le_bytes(x, n).len() == n,
        le_bytes(x, n)[k] == (x / pow256(k as nat)) % 256,
    decreases n,
{
    lemma_le_bytes_len(x, n);
    if k == 0 {
        assert(pow256(0) == 1);
        vstd::arithmetic::div_mod::lemma_div_basics(x as int);
        assert(x / pow256(0nat) == x);
        assert(le_bytes(x, n)[0] == ((x % 256) as u8));
    } else {
        lemma_le_bytes_index(x / 256, (n - 1) as nat, k - 1);
        lemma_le_bytes_len(x / 256, (n - 1) as nat);
        lemma_pow256_pos((k - 1) as nat);
        let p = pow256((k - 1) as nat) as int;
        assert(le_bytes(x, n)[k] == le_bytes(x / 256, (n - 1) as nat)[k - 1]);
        assert(le_bytes(x / 256, (n - 1) as nat)[k - 1] == (((x / 256) / pow256(
            (k - 1) as nat,
        )) % 256) as u8);
        vstd::arithmetic::div_mod::lemma_div_denominator(x as int, 256, p);
        assert((x as int / 256) / p == x as int / (256 * p));
        assert(256 * p == pow256(k as nat) as int);
        assert(x as int / (256 * p) == x as int / (pow256(k as nat) as int));
        assert((x / 256) / pow256((k - 1) as nat) == x / pow256(k as nat));
        assert(le_bytes(x, n)[k] == (((x / pow256(k as nat)) % 256) as u8));
    }
}

/// Append the `n` little-endian bytes of `x`.
pub fn encode_le(x: u128, n: usize, out: &mut Vec<u8>)
    ensures
        final(out)@ == old(out)@ + le_bytes(x as nat, n as nat),
{
    let mut cur: u128 = x;
    let mut i: usize = 0;
    while i < n
        invariant
            i <= n,
            out@ + le_bytes(cur as nat, (n - i) as nat) == old(out)@ + le_bytes(
                x as nat,
                n as nat,
            ),
        decreases n - i,
    {
        out.push((cur % 256) as u8);
        proof {
            assert(out@ + le_bytes((cur as nat) / 256, (n - i - 1) as nat) =~= old(out)@
                + le_bytes(x as nat, n as nat));
        }
        cur = cur / 256;
        i = i + 1;
    }
    proof {
        assert(out@ + le_bytes(cur as nat, 0) =~= out@);
    }
}

/// Read an `n`-byte little-endian value, `n` at most 16.
pub fn decode_le(s: &[u8], at: usize, n: usize) -> (r: u128)
    requires
        at + n <= s@.len(),
        n <= 16,
    ensures
        r as nat == le_val(s@.subrange(at as int, at + n)),
{
    proof {
        reveal_with_fuel(pow256, 17);
    }
    let slen: usize = s.len();
    let mut val: u128 = 0;
    let mut j: usize = n;
    while j > 0
        invariant
            j <= n,
            n <= 16,
            at + n <= slen,
            slen == s@.len(),
            val as nat == le_val(s@.subrange(at + j, at + n)),
            (val as nat) < pow256((n - j) as nat),
            pow256(16) == 0x100000000000000000000000000000000,
        decreases j,
    {
        let ghost prev = val as nat;
        proof {
            lemma_le_val_bound(s@.subrange(at + j, at + n));
            assert(pow256((n - j + 1) as nat) == 256 * pow256((n - j) as nat));
            lemma_pow256_increases((n - j + 1) as nat, 16);
            assert(s@.subrange(at + j - 1, at + n).drop_first() =~= s@.subrange(
                at + j,
                at + n,
            ));
        }
        val = val * 256 + (s[at + j - 1] as u128);
        j = j - 1;
        assert(val as nat == le_val(s@.subrange(at + j, at + n)));
    }
    proof {
        assert(s@.subrange(at as int, at + n) =~= s@.subrange(at + 0, at + n));
    }
    val
}

/// How many little-endian bytes the big form of a compact length uses:
/// the least width that holds the value, at least four.
pub open spec fn compact_big_len(n: u64) -> nat {
    if (n as nat) < pow256(4) {
        4
    } else if (n as nat) < pow256(5) {
        5
    } else if (n as nat) < pow256(6) {
        6
    } else if (n as nat) < pow256(7) {
        7
    } else {
        8
    }
}

/// The compact form of a length: two mode bits in the first byte select a
/// one-, two-, or four-byte shifted form, or a counted big-endian-tagged
/// little-endian form for larger values.
pub open spec fn encode_compact_s(n: u64) -> Seq<u8> {
    if n < 64 {
        seq![(n * 4) as u8]
    } else if n < 16384 {
        le_bytes((n * 4 + 1) as nat, 2)
    } else if n < 0x40000000 {
        le_bytes((n * 4 + 2) as nat, 4)
    } else {
        seq![((compact_big_len(n) - 4) * 4 + 3) as u8] + le_bytes(n as nat, compact_big_len(n))
    }
}

/// Append the compact form of `n`.
pub fn encode_compact(n: u64, out: &mut Vec<u8>)
    ensures
        final(out)@ == old(out)@ + encode_compact_s(n),
{
    proof {
        reveal_with_fuel(pow256, 9);
    }
    if n < 64 {
        out.push((n * 4) as u8);
        assert(out@ =~= old(out)@ + encode_compact_s(n));
    } else if n < 16384 {
        encode_le((n * 4 + 1) as u128, 2, out);
    } else if n < 0x40000000 {
        encode_le((n * 4 + 2) as u128, 4, out);
    } else {
        let nb: usize = if n < 0x100000000 {
            4
        } else if n < 0x10000000000 {
            5
        } else if n < 0x1000000000000 {
            6
        } else if n < 0x100000000000000 {
            7
        } else {
            8
        };
        assert(nb as nat == compact_big_len(n));
        out.push(((nb - 4) * 4 + 3) as u8);
        let ghost mid = out@;
        encode_le(n as u128, nb, out);
        assert(out@ =~= old(out)@ + encode_compact_s(n));
    }
}

/// What reading a compact length at `i` yields: the value and the position
/// after it, or nothing when the bytes are not a canonical compact form.
pub open spec fn decode_compact_s(s: Seq<u8>, i: int) -> Option<(u64, int)> {
    if i < 0 || i >= s.len() {
        None
    } else {
        let b0 = s[i];
        let mode = b0 % 4;
        if mode == 0 {
            Some(((b0 / 4) as u64, i + 1))
        } else if mode == 1 {
            if i + 2 <= s.len() {
                let v = le_val(s.subrange(i, i + 2));
                if v % 4 == 1 && v / 4 >= 64 {
                    Some(((v / 4) as u64, i + 2))
                } else {
                    None
                }
            } else {
                None
            }
        } else if mode == 2 {
            if i + 4 <= s.len() {
                let v = le_val(s.subrange(i, i + 4));
                if v % 4 == 2 && v / 4 >= 16384 {
                    Some(((v / 4) as u64, i + 4))
                } else {
                    None
                }
            } else {
                None
            }
        } else {
            let nb = b0 / 4 + 4;
            if nb <= 8 && i + 1 + nb <= s.len() {
                let v = le_val(s.subrange(i + 1, i + 1 + nb));
                if v >= 0x40000000 && s[i + nb] != 0 {
                    Some((v as u64, i + 1 + nb))
                } else {
                    None
                }
            } else {
                None
            }
        }
    }
}

/// Read a compact length at `at`.
pub fn decode_compact(s: &[u8], at: usize) -> (r: Option<(u64, usize)>)
    ensures
        match r {
            Some((v, next)) => decode_compact_s(s@, at as int) == Some((v, next as int)),
            None => decode_compact_s(s@, at as int) is None,
        },
{
    proof {
        reveal_with_fuel(pow256, 9);
    }
    if at >= s.len() {
        return None;
    }
    let b0 = s[at];
    let mode = b0 % 4;
    if mode == 0 {
        Some(((b0 / 4) as u64, at + 1))
    } else if mode == 1 {
        if s.len() >= 2 && at <= s.len() - 2 {
            let v = decode_le(s, at, 2);
            proof {
                lemma_le_val_bound(s@.subrange(at as int, at + 2));
            }
            if v % 4 == 1 && v / 4 >= 64 {
                Some(((v / 4) as u64, at + 2))
            } else {
                None
            }
        } else {
            None
        }
    } else if mode == 2 {
        if s.len() >= 4 && at <= s.len() - 4 {
            let v = decode_le(s, at, 4);
            proof {
                lemma_le_val_bound(s@.subrange(at as int, at + 4));
            }
            if v % 4 == 2 && v / 4 >= 16384 {
                Some(((v / 4) as u64, at + 4))
            } else {
                None
            }
        } else {
            None
        }
    } else {
        let nb = (b0 / 4 + 4) as usize;
        if nb <= 8 && s.len() >= nb + 1 && at <= s.len() - nb - 1 {
            let v = decode_le(s, at + 1, nb);
            proof {
                lemma_le_val_bound(s@.subrange(at + 1 as int, at + 1 + nb));
            }
            if v >= 0x40000000 && s[at + nb] != 0 {
                Some((v as u64, at + 1 + nb))
            } else {
                None
            }
        } else {
            None
        }
    }
}

/// Reading back an encoded compact length yields the length and stops right
/// after it, whatever follows.
pub proof fn lemma_compact_round_trip(n: u64, rest: Seq<u8>)
    ensures
        decode_compact_s(encode_compact_s(n) + rest, 0) == Some(
            (n, encode_compact_s(n).len() as int),
        ),
{
    reveal_with_fuel(pow256, 9);
    let s = encode_compact_s(n) + rest;
    if n < 64 {
        assert(s[0] == (n * 4) as u8);
    } else if n < 16384 {
        lemma_le_bytes_len((n * 4 + 1) as nat, 2);
        lemma_le_bytes_index((n * 4 + 1) as nat, 2, 0);
        assert(s.subrange(0, 2) =~= le_bytes((n * 4 + 1) as nat, 2));
        lemma_le_val_le_bytes((n * 4 + 1) as nat, 2);
        vstd::arithmetic::div_mod::lemma_small_mod((n * 4 + 1) as nat, pow256(2));
        assert(le_val(s.subrange(0, 2)) == n * 4 + 1);
        assert(s[0] == ((n * 4 + 1) as nat % 256) as u8);
        assert(s[0] % 4 == 1) by {
            lemma_mod_breakdown((n * 4 + 1) as int, 4, 64);
        }
    } else if n < 0x40000000 {
        lemma_le_bytes_len((n * 4 + 2) as nat, 4);
        lemma_le_bytes_index((n * 4 + 2) as nat, 4, 0);
        assert(s.subrange(0, 4) =~= le_bytes((n * 4 + 2) as nat, 4));
        lemma_le_val_le_bytes((n * 4 + 2) as nat, 4);
        vstd::arithmetic::div_mod::lemma_small_mod((n * 4 + 2) as nat, pow256(4));
        assert(le_val(s.subrange(0, 4)) == n * 4 + 2);
        assert(s[0] == ((n * 4 + 2) as nat % 256) as u8);
        assert(s[0] % 4 == 2) by {
            lemma_mod_breakdown((n * 4 + 2) as int, 4, 64);
        }
    } else {
        let nb = compact_big_len(n);
        lemma_le_bytes_len(n as nat, nb);
        assert(s[0] == ((nb - 4) * 4 + 3) as u8);
        assert(s[0] % 4 == 3 && s[0] / 4 + 4 == nb);
        assert(s.subrange(1, 1 + nb as int) =~= le_bytes(n as nat, nb));
        lemma_le_val_le_bytes(n as nat, nb);
        vstd::arithmetic::div_mod::lemma_small_mod(n as nat, pow256(nb));
        assert(le_val(s.subrange(1, 1 + nb as int)) == n);
        lemma_le_bytes_index(n as nat, nb, nb as int - 1);
        assert(s[nb as int] == le_bytes(n as nat, nb)[nb as int - 1]);
        assert((n as nat) >= pow256((nb - 1) as nat));
        let p = pow256((nb - 1) as nat) as int;
        assert((n as nat) / pow256((nb - 1) as nat) >= 1) by {
            vstd::arithmetic::div_mod::lemma_div_is_ordered(p, n as int, p);
            vstd::arithmetic::div_mod::lemma_div_by_self(p);
        }
        assert((n as nat) / pow256((nb - 1) as nat) < 256) by {
            assert(pow256(nb) == 256 * pow256((nb - 1) as nat));
            assert((n as int) < p * 256) by (nonlinear_arith)
                requires
                    (n as nat) < pow256(nb),
                    pow256(nb) == 256 * pow256((nb - 1) as nat),
                    p == pow256((nb - 1) as nat),
            ;
            vstd::arithmetic::div_mod::lemma_multiply_divide_lt(n as int, p, 256);
        }
        assert(s[nb as int] != 0);
    }
}

/// The byte form of a node summary: a tag byte, then the fields.
pub open spec fn encode_mv_s(m: MvV) -> Seq<u8> {
    match m {
        MvV::Value(v) => seq![0u8] + v,
        MvV::MergeWithZero { base_node, zero_bits, zero_count } => seq![1u8] + base_node
            + zero_bits + seq![zero_count],
    }
}

/// The byte form of a branch: its left summary, then its right summary.
pub open spec fn encode_branch_s(l: MvV, r: MvV) -> Seq<u8> {
    encode_mv_s(l) + encode_mv_s(r)
}

/// A summary whose digest fields have digest width.
pub open spec fn wf_mv(m: MvV) -> bool {
    match m {
        MvV::Value(v) => v.len() == 32,
        MvV::MergeWithZero { base_node, zero_bits, .. } => base_node.len() == 32
            && zero_bits.len() == 32,
    }
}

/// What reading one summary at `i` yields: the summary and the position
/// after it, or nothing when the tag or the length is wrong.
pub open spec fn decode_mv_at(s: Seq<u8>, i: int) -> Option<(MvV, int)> {
    if i < 0 || i >= s.len() {
        None
    } else if s[i] == 0 {
        if i + 33 <= s.len() {
            Some((MvV::Value(s.subrange(i + 1, i + 33)), i + 33))
        } else {
            None
        }
    } else if s[i] == 1 {
        if i + 66 <= s.len() {
            Some(
                (
                    MvV::MergeWithZero {
                        base_node: s.subrange(i + 1, i + 33),
                        zero_bits: s.subrange(i + 33, i + 65),
                        zero_count: s[i + 65],
                    },
                    i + 66,
                ),
            )
        } else {
            None
        }
    } else {
        None
    }
}

/// What decoding a stored branch yields: exactly two summaries filling the
/// bytes, or nothing.
pub open spec fn decode_branch_s(s: Seq<u8>) -> Option<(MvV, MvV)> {
    match decode_mv_at(s, 0) {
        None => None,
        Some((l, i)) => match decode_mv_at(s, i) {
            None => None,
            Some((r, j)) => if j == s.len() {
                Some((l, r))
            } else {
                None
            },
        },
    }
}

/// Reading back an encoded summary yields the summary, whatever follows.
pub proof fn lemma_mv_round_trip(m: MvV, rest: Seq<u8>)
    requires
        wf_mv(m),
    ensures
        decode_mv_at(encode_mv_s(m) + rest, 0) == Some((m, encode_mv_s(m).len() as int)),
{
    let s = encode_mv_s(m) + rest;
    match m {
        MvV::Value(v) => {
            assert(s[0] == 0);
            assert(s.subrange(1, 33) =~= v);
        },
        MvV::MergeWithZero { base_node, zero_bits, zero_count } => {
            assert(s[0] == 1);
            assert(s.subrange(1, 33) =~= base_node);
            assert(s.subrange(33, 65) =~= zero_bits);
            assert(s[65] == zero_count);
        },
    }
}

/// Reading back an encoded branch yields the branch.
pub proof fn lemma_branch_round_trip(l: MvV, r: MvV)
    requires
        wf_mv(l),
        wf_mv(r),
    ensures
        decode_branch_s(encode_branch_s(l, r)) == Some((l, r)),
{
    let s = encode_branch_s(l, r);
    lemma_mv_round_trip(l, encode_mv_s(r));
    assert(decode_mv_at(s, 0) == Some((l, encode_mv_s(l).len() as int)));
    let il = encode_mv_s(l).len() as int;
    match r {
        MvV::Value(v) => {
            assert(s[il] == 0);
            assert(s.subrange(il + 1, il + 33) =~= v);
        },
        MvV::MergeWithZero { base_node, zero_bits, zero_count } => {
            assert(s[il] == 1);
            assert(s.subrange(il + 1, il + 33) =~= base_node);
            assert(s.subrange(il + 33, il + 65) =~= zero_bits);
            assert(s[il + 65] == zero_count);
        },
    }
}

/// Append the byte form of a summary.
pub fn encode_merge_value(mv: &MergeValue, out: &mut Vec<u8>)
    ensures
        final(out)@ == old(out)@ + encode_mv_s(mv@),
{
    match mv {
        MergeValue::Value(v) => {
            out.push(0u8);
            let bytes = v.to_vec();
            let ghost mid = out@;
            append_vec(out, &bytes);
            assert(out@ =~= old(out)@ + encode_mv_s(mv@));
        },
        MergeValue::MergeWithZero { base_node, zero_bits, zero_count } => {
            out.push(1u8);
            let b = base_node.to_vec();
            append_vec(out, &b);
            let z = zero_bits.to_vec();
            append_vec(out, &z);
            out.push(*zero_count);
            assert(out@ =~= old(out)@ + encode_mv_s(mv@));
        },
    }
}

/// Append one vector to another.
pub fn append_vec(out: &mut Vec<u8>, add: &Vec<u8>)
    ensures
        final(out)@ == old(out)@ + add@,
{
    let mut i: usize = 0;
    while i < add.len()
        invariant
            i <= add@.len(),
            out@ == old(out)@ + add@.subrange(0, i as int),
        decreases add@.len() - i,
    {
        out.push(add[i]);
        assert(out@ =~= old(out)@ + add@.subrange(0, i + 1 as int));
        i = i + 1;
    }
    assert(out@ =~= old(out)@ + add@);
}

/// The byte form of a branch node.
pub fn encode_branch(node: &BranchNode) -> (r: Vec<u8>)
    ensures
        r@ == encode_branch_s(node.left@, node.right@),
{
    let mut out: Vec<u8> = Vec::new();
    encode_merge_value(&node.left, &mut out);
    encode_merge_value(&node.right, &mut out);
    assert(out@ =~= encode_branch_s(node.left@, node.right@));
    out
}

/// Read one summary at `at`.
fn decode_merge_value_at(s: &[u8], at: usize) -> (r: Option<(MergeValue, usize)>)
    ensures
        match r {
            Some((mv, next)) => decode_mv_at(s@, at as int) == Some((mv@, next as int)) && next
                <= s@.len(),
            None => decode_mv_at(s@, at as int) is None,
        },
{
    if at >= s.len() {
        return None;
    }
    let tag = s[at];
    if tag == 0 {
        if s.len() >= 33 && at <= s.len() - 33 {
            let v = read_h256(s, at + 1);
            Some((MergeValue::Value(v), at + 33))
        } else {
            None
        }
    } else if tag == 1 {
        if s.len() >= 66 && at <= s.len() - 66 {
            let base_node = read_h256(s, at + 1);
            let zero_bits = read_h256(s, at + 33);
            let zero_count = s[at + 65];
            Some((MergeValue::MergeWithZero { base_node, zero_bits, zero_count }, at + 66))
        } else {
            None
        }
    } else {
        None
    }
}

/// Read 32 bytes at `at` as a digest.
pub fn read_h256(s: &[u8], at: usize) -> (r: crate::h256::H256)
    requires
        at + 32 <= s@.len(),
    ensures
        r@ == s@.subrange(at as int, at + 32),
{
    let slen: usize = s.len();
    let mut bytes = [0u8; 32];
    let mut i: usize = 0;
    while i < 32
        invariant
            i <= 32,
            at + 32 <= slen,
            slen == s@.len(),
            forall|k: int| 0 <= k < i ==> bytes@[k] == s@[at + k],
        decreases 32 - i,
    {
        bytes[i] = s[at + i];
        i = i + 1;
    }
    let r = crate::h256::H256 { bytes };
    assert(r@ =~= s@.subrange(at as int, at + 32));
    r
}

/// Decode a stored branch; malformed bytes yield nothing.
pub fn decode_branch(s: &[u8]) -> (r: Option<BranchNode>)
    ensures
        match r {
            Some(node) => decode_branch_s(s@) == Some((node.left@, node.right@)),
            None => decode_branch_s(s@) is None,
        },
{
    match decode_merge_value_at(s, 0) {
        None => None,
        Some((left, i)) => match decode_merge_value_at(s, i) {
            None => None,
            Some((right, j)) => if j == s.len() {
                Some(BranchNode { left, right })
            } else {
                None
            },
        },
    }
}

} // verus!
