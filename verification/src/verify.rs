//! The stateless proof verifier.
//!
//! A proof for one path carries the hash of the value, a bitmap marking the
//! levels where a genuine sibling stood, and those siblings in ascending
//! order. The verifier re-runs the merge rule from the leaf to the root and
//! compares the outcome with the expected root. It never touches a store.

use vstd::prelude::*;
use crate::h256::{H256, zero32, bit_of, parent_path_s, keep_below_s};
use crate::kv::{SMTKey, SMTValue};
use crate::merge::{
    MvV, MergeValue, mv_zero, mv_is_zero, mv_hash_s, merge_s, merge, hash_base_node_s,
    hash_base_node,
};

verus! {

/// A proof bundle carrying the key and value back with the witness.
#[derive(Debug, Clone)]
pub struct Proof {
    /// The key whose leaf is proven.
    pub key: SMTKey,
    /// The value claimed for the key.
    pub value: SMTValue,
    /// The leaf path: the hash of the key.
    pub path: H256,
    /// The hash of the value.
    pub value_hash: H256,
    /// The root the proof claims to reconstruct.
    pub root: H256,
    /// Bit `h` set means a genuine sibling stood at level `h`.
    pub leave_bitmap: H256,
    /// The genuine siblings, in ascending level order.
    pub siblings: Vec<MergeValue>,
}

/// The summary of a tree holding one leaf: the leaf's base hash under a
/// full chain of zero neighbours.
pub open spec fn single_leaf_mv_s(key: Seq<u8>, value: Seq<u8>) -> MvV {
    if value == zero32() {
        MvV::Value(value)
    } else {
        MvV::MergeWithZero {
            base_node: hash_base_node_s(0, parent_path_s(key, 0), value),
            zero_bits: key,
            zero_count: 0,
        }
    }
}

/// The collapsed summary of a lone leaf seen from `height`: the leaf's base
/// hash with the path bits below `height` recorded as zero bits.
pub open spec fn into_merge_value_s(key: Seq<u8>, value: Seq<u8>, height: u8) -> MvV {
    if value == zero32() || height == 0 {
        MvV::Value(value)
    } else {
        MvV::MergeWithZero {
            base_node: hash_base_node_s(0, parent_path_s(key, 0), value),
            zero_bits: keep_below_s(key, height as int),
            zero_count: height,
        }
    }
}

/// How many of the bits below `h` are set.
pub open spec fn count_bits_upto(bm: Seq<u8>, h: int) -> nat
    decreases h,
{
    if h <= 0 {
        0
    } else {
        count_bits_upto(bm, h - 1) + (if bit_of(bm, h - 1) {
            1nat
        } else {
            0nat
        })
    }
}

pub proof fn lemma_count_bits_mono(bm: Seq<u8>, a: int, b: int)
    requires
        0 <= a <= b,
    ensures
        count_bits_upto(bm, a) <= count_bits_upto(bm, b),
    decreases b - a,
{
    if a < b {
        lemma_count_bits_mono(bm, a, b - 1);
    }
}

/// The verifier's state after the levels below `i`: the running summary and
/// how many siblings were consumed.
pub open spec fn verify_state(
    path: Seq<u8>,
    vh: Seq<u8>,
    bm: Seq<u8>,
    sibs: Seq<MvV>,
    i: int,
) -> (MvV, nat)
    decreases i,
{
    if i <= 0 {
        (mv_zero(), 0)
    } else {
        let st = verify_state(path, vh, bm, sibs, i - 1);
        let cur = st.0;
        let n = st.1;
        let hh = (i - 1) as u8;
        let parent = parent_path_s(path, i - 1);
        if bit_of(bm, i - 1) {
            let base = if n == 0 {
                into_merge_value_s(path, vh, hh)
            } else {
                cur
            };
            let sib = if n < sibs.len() {
                sibs[n as int]
            } else {
                mv_zero()
            };
            if bit_of(path, i - 1) {
                (merge_s(hh, parent, sib, base), n + 1)
            } else {
                (merge_s(hh, parent, base, sib), n + 1)
            }
        } else if n > 0 {
            if bit_of(path, i - 1) {
                (merge_s(hh, parent, mv_zero(), cur), n)
            } else {
                (merge_s(hh, parent, cur, mv_zero()), n)
            }
        } else {
            (mv_zero(), 0)
        }
    }
}

/// The sibling count the verifier consumes is the number of set bits.
pub proof fn lemma_verify_state_count(path: Seq<u8>, vh: Seq<u8>, bm: Seq<u8>, sibs: Seq<MvV>, i: int)
    requires
        0 <= i,
    ensures
        verify_state(path, vh, bm, sibs, i).1 == count_bits_upto(bm, i),
    decreases i,
{
    if i > 0 {
        lemma_verify_state_count(path, vh, bm, sibs, i - 1);
    }
}

/// What the verifier decides: a zero value hash is rejected; an empty
/// sibling list is checked as a single-leaf tree; a sibling list whose
/// length differs from the bitmap's set-bit count is rejected; otherwise
/// the recombined summary's hash must equal the root.
pub open spec fn verify_s(
    path: Seq<u8>,
    vh: Seq<u8>,
    bm: Seq<u8>,
    sibs: Seq<MvV>,
    root: Seq<u8>,
) -> bool {
    if vh == zero32() {
        false
    } else if sibs.len() == 0 {
        mv_hash_s(single_leaf_mv_s(path, vh)) == root
    } else if count_bits_upto(bm, 256) != sibs.len() {
        false
    } else {
        mv_hash_s(verify_state(path, vh, bm, sibs, 256).0) == root
    }
}

/// The summary a one-leaf tree recombines to, for the empty-sibling check.
pub fn single_leaf_verify(key: H256, value: H256) -> (r: MergeValue)
    ensures
        r@ == single_leaf_mv_s(key@, value@),
{
    if value.is_zero() {
        MergeValue::from_h256(value)
    } else {
        let base_key = key.parent_path(0);
        let base_node = hash_base_node(0, &base_key, &value);
        MergeValue::MergeWithZero { base_node, zero_bits: key, zero_count: 0 }
    }
}

/// The collapsed summary of a lone leaf seen from `height`.
pub fn into_merge_value(key: H256, value: H256, height: u8) -> (r: MergeValue)
    ensures
        r@ == into_merge_value_s(key@, value@, height),
{
    if value.is_zero() || height == 0 {
        MergeValue::from_h256(value)
    } else {
        let base_key = key.parent_path(0);
        let base_node = hash_base_node(0, &base_key, &value);
        let zero_bits = key.low_bits(height);
        MergeValue::MergeWithZero { base_node, zero_bits, zero_count: height }
    }
}

/// Count the set bits of a bitmap.
pub fn count_bits(bm: &H256) -> (r: usize)
    ensures
        r as nat == count_bits_upto(bm@, 256),
{
    let mut n: usize = 0;
    let mut i: u16 = 0;
    while i < 256
        invariant
            i <= 256,
            n <= i,
            n as nat == count_bits_upto(bm@, i as int),
        decreases 256 - i,
    {
        if bm.get_bit(i as u8) {
            n = n + 1;
        }
        i = i + 1;
    }
    n
}

/// Verify a single-path Merkle proof against a root.
///
/// Rejects a zero value hash, treats an empty sibling list as the one-leaf
/// tree, rejects a sibling list that does not match the bitmap, and
/// otherwise replays the merge rule from the leaf upward.
pub fn verify(
    path: H256,
    value_hash: H256,
    leave_bitmap: H256,
    siblings: Vec<MergeValue>,
    root: H256,
) -> (r: bool)
    ensures
        r == verify_s(
            path@,
            value_hash@,
            leave_bitmap@,
            siblings@.map_values(|mv: MergeValue| mv@),
            root@,
        ),
{
    let ghost sibs = siblings@.map_values(|mv: MergeValue| mv@);
    if value_hash.is_zero() {
        return false;
    }
    if siblings.len() == 0 {
        let single = single_leaf_verify(path, value_hash);
        let h = single.hash();
        return h.equals(&root);
    }
    let total = count_bits(&leave_bitmap);
    if total != siblings.len() {
        return false;
    }

    let mut current_v = MergeValue::zero();
    let mut n: usize = 0;
    let mut i: u16 = 0;
    while i < 256
        invariant
            i <= 256,
            sibs == siblings@.map_values(|mv: MergeValue| mv@),
            sibs.len() == siblings@.len(),
            count_bits_upto(leave_bitmap@, 256) == siblings@.len(),
            n <= i,
            n as nat == count_bits_upto(leave_bitmap@, i as int),
            verify_state(path@, value_hash@, leave_bitmap@, sibs, i as int) == (
                current_v@,
                n as nat,
            ),
        decreases 256 - i,
    {
        let hh = i as u8;
        let parent_path = path.parent_path(hh);
        if leave_bitmap.get_bit(hh) {
            proof {
                lemma_count_bits_mono(leave_bitmap@, i as int + 1, 256);
            }
            let base = if n == 0 {
                into_merge_value(path, value_hash, hh)
            } else {
                current_v
            };
            let sib = siblings[n];
            if path.is_right(hh) {
                current_v = merge(hh, &parent_path, &sib, &base);
            } else {
                current_v = merge(hh, &parent_path, &base, &sib);
            }
            n = n + 1;
        } else if n > 0 {
            let zero = MergeValue::zero();
            if path.is_right(hh) {
                current_v = merge(hh, &parent_path, &zero, &current_v);
            } else {
                current_v = merge(hh, &parent_path, &current_v, &zero);
            }
        } else {
            current_v = MergeValue::zero();
        }
        i = i + 1;
    }
    let h = current_v.hash();
    h.equals(&root)
}

} // verus!
