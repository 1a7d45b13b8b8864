//! Node summaries and the merge rule of the sparse Merkle tree.
//!
//! A node is summarised either as an opaque 32-byte hash, or — when its
//! subtree holds a single non-zero descendant under a chain of zero
//! neighbours — as a compressed `MergeWithZero` record. The merge rule says
//! how two child summaries combine into the parent's summary at a height.

use vstd::prelude::*;
use crate::h256::{H256, zero32, set_bit_s};
use crate::keccak::{keccak_of, Keccak256Hasher};

verus! {

/// Domain tag hashed in front of an ordinary two-child merge.
pub const MERGE_NORMAL: u8 = 1;

/// Domain tag hashed in front of a collapsed merge-with-zero summary.
pub const MERGE_ZEROS: u8 = 2;

/// The mathematical form of a node summary.
pub enum MvV {
    Value(Seq<u8>),
    MergeWithZero { base_node: Seq<u8>, zero_bits: Seq<u8>, zero_count: u8 },
}

/// The zero sentinel: an opaque all-zero hash.
pub open spec fn mv_zero() -> MvV {
    MvV::Value(zero32())
}

/// Whether a summary is the zero sentinel.
pub open spec fn mv_is_zero(m: MvV) -> bool {
    m matches MvV::Value(v) && v == zero32()
}

/// The 32-byte hash of a summary: an opaque hash is itself; a collapsed
/// record hashes its tag, base node, zero bits and zero count.
pub open spec fn mv_hash_s(m: MvV) -> Seq<u8> {
    match m {
        MvV::Value(v) => v,
        MvV::MergeWithZero { base_node, zero_bits, zero_count } => keccak_of(
            seq![MERGE_ZEROS] + base_node + zero_bits + seq![zero_count],
        ),
    }
}

/// The hash of a leaf base: height byte, then base key, then value hash.
pub open spec fn hash_base_node_s(height: u8, base_key: Seq<u8>, base_value: Seq<u8>) -> Seq<u8> {
    keccak_of(seq![height] + base_key + base_value)
}

/// `zero_count` advances one level, wrapping at 256.
pub open spec fn inc_zero_count(c: u8) -> u8 {
    if c == 255 {
        0u8
    } else {
        (c + 1) as u8
    }
}

/// Merge of one non-zero child with a zero sibling at `height`: the summary
/// collapses into a `MergeWithZero` record, recording on which side the
/// non-zero child sat.
pub open spec fn merge_with_zero_s(height: u8, node_key: Seq<u8>, value: MvV, set_bit: bool) -> MvV {
    match value {
        MvV::Value(v) => MvV::MergeWithZero {
            base_node: hash_base_node_s(height, node_key, v),
            zero_bits: if set_bit {
                set_bit_s(zero32(), height as int)
            } else {
                zero32()
            },
            zero_count: 1,
        },
        MvV::MergeWithZero { base_node, zero_bits, zero_count } => MvV::MergeWithZero {
            base_node,
            zero_bits: if set_bit {
                set_bit_s(zero_bits, height as int)
            } else {
                zero_bits
            },
            zero_count: inc_zero_count(zero_count),
        },
    }
}

/// The merge rule: how two child summaries combine into the summary of their
/// parent node at `height` with path prefix `node_key`.
pub open spec fn merge_s(height: u8, node_key: Seq<u8>, lhs: MvV, rhs: MvV) -> MvV {
    if mv_is_zero(lhs) && mv_is_zero(rhs) {
        mv_zero()
    } else if mv_is_zero(lhs) {
        merge_with_zero_s(height, node_key, rhs, true)
    } else if mv_is_zero(rhs) {
        merge_with_zero_s(height, node_key, lhs, false)
    } else {
        MvV::Value(
            keccak_of(
                seq![MERGE_NORMAL, height] + node_key + mv_hash_s(lhs) + mv_hash_s(rhs),
            ),
        )
    }
}

/// A node summary: either an opaque hash or a collapsed single-leaf record.
#[derive(Debug, Clone, Copy, PartialEq, Eq)]
pub enum MergeValue {
    Value(H256),
    MergeWithZero { base_node: H256, zero_bits: H256, zero_count: u8 },
}

impl View for MergeValue {
    type V = MvV;

    open spec fn view(&self) -> MvV {
        match *self {
            MergeValue::Value(v) => MvV::Value(v@),
            MergeValue::MergeWithZero { base_node, zero_bits, zero_count } => MvV::MergeWithZero {
                base_node: base_node@,
                zero_bits: zero_bits@,
                zero_count,
            },
        }
    }
}

impl MergeValue {
    /// Wrap an opaque hash.
    pub fn from_h256(v: H256) -> (r: MergeValue)
        ensures
            r@ == MvV::Value(v@),
    {
        MergeValue::Value(v)
    }

    /// The zero sentinel.
    pub fn zero() -> (r: MergeValue)
        ensures
            r@ == mv_zero(),
    {
        MergeValue::Value(H256::zero())
    }

    /// Whether this summary is the zero sentinel.
    pub fn is_zero(&self) -> (r: bool)
        ensures
            r == mv_is_zero(self@),
    {
        match self {
            MergeValue::Value(v) => v.is_zero(),
            MergeValue::MergeWithZero { .. } => false,
        }
    }

    /// The 32-byte hash of this summary.
    pub fn hash(&self) -> (r: H256)
        ensures
            r@ == mv_hash_s(self@),
    {
        match self {
            MergeValue::Value(v) => *v,
            MergeValue::MergeWithZero { base_node, zero_bits, zero_count } => {
                let mut hasher = Keccak256Hasher::default();
                hasher.write_byte(MERGE_ZEROS);
                hasher.write_h256(base_node);
                hasher.write_h256(zero_bits);
                hasher.write_byte(*zero_count);
                assert(hasher@ =~= seq![MERGE_ZEROS] + base_node@ + zero_bits@ + seq![
                    *zero_count,
                ]);
                hasher.finish()
            },
        }
    }
}

/// Hash a leaf base node: height byte, base key, value hash, in that order.
pub fn hash_base_node(base_height: u8, base_key: &H256, base_value: &H256) -> (r: H256)
    ensures
        r@ == hash_base_node_s(base_height, base_key@, base_value@),
{
    let mut hasher = Keccak256Hasher::default();
    hasher.write_byte(base_height);
    hasher.write_h256(base_key);
    hasher.write_h256(base_value);
    assert(hasher@ =~= seq![base_height] + base_key@ + base_value@);
    hasher.finish()
}

/// Merge a non-zero child with a zero sibling at `height`.
pub fn merge_with_zero(height: u8, node_key: &H256, value: &MergeValue, set_bit: bool) -> (r:
    MergeValue)
    ensures
        r@ == merge_with_zero_s(height, node_key@, value@, set_bit),
{
    match value {
        MergeValue::Value(v) => {
            let mut zero_bits = H256::zero();
            if set_bit {
                zero_bits.set_bit(height);
            }
            let base_node = hash_base_node(height, node_key, v);
            MergeValue::MergeWithZero { base_node, zero_bits, zero_count: 1 }
        },
        MergeValue::MergeWithZero { base_node, zero_bits, zero_count } => {
            let mut bits = *zero_bits;
            if set_bit {
                bits.set_bit(height);
            }
            let count = if *zero_count == 255 {
                0u8
            } else {
                *zero_count + 1
            };
            MergeValue::MergeWithZero { base_node: *base_node, zero_bits: bits, zero_count: count }
        },
    }
}

/// Combine two child summaries into their parent's summary at `height`.
///
/// Two zeros stay zero without hashing; a single non-zero child collapses
/// into a `MergeWithZero` record; two non-zero children hash into an opaque
/// value.
pub fn merge(height: u8, node_key: &H256, lhs: &MergeValue, rhs: &MergeValue) -> (r: MergeValue)
    ensures
        r@ == merge_s(height, node_key@, lhs@, rhs@),
{
    if lhs.is_zero() && rhs.is_zero() {
        return MergeValue::zero();
    }
    if lhs.is_zero() {
        return merge_with_zero(height, node_key, rhs, true);
    }
    if rhs.is_zero() {
        return merge_with_zero(height, node_key, lhs, false);
    }
    let lh = lhs.hash();
    let rh = rhs.hash();
    let mut hasher = Keccak256Hasher::default();
    hasher.write_byte(MERGE_NORMAL);
    hasher.write_byte(height);
    hasher.write_h256(node_key);
    hasher.write_h256(&lh);
    hasher.write_h256(&rh);
    assert(hasher@ =~= seq![MERGE_NORMAL, height] + node_key@ + mv_hash_s(lhs@) + mv_hash_s(
        rhs@,
    ));
    MergeValue::Value(hasher.finish())
}

/// A stored branch is addressed by its height and the path prefix of the
/// node, with every bit below the height cleared.
#[derive(Debug, Clone, Copy, PartialEq, Eq, Hash)]
pub struct BranchKey {
    pub height: u8,
    pub node_key: H256,
}

impl BranchKey {
    /// Address a branch.
    pub fn new(height: u8, node_key: H256) -> (r: BranchKey)
        ensures
            r.height == height,
            r.node_key@ == node_key@,
    {
        BranchKey { height, node_key }
    }
}

/// A stored branch: the summaries of the two children of an inner node.
#[derive(Debug, Clone, Copy, PartialEq, Eq)]
pub struct BranchNode {
    pub left: MergeValue,
    pub right: MergeValue,
}

impl BranchNode {
    /// A branch with two zero children; such a branch is never persisted.
    pub fn new_empty() -> (r: BranchNode)
        ensures
            r.left@ == mv_zero(),
            r.right@ == mv_zero(),
    {
        BranchNode { left: MergeValue::zero(), right: MergeValue::zero() }
    }

    /// Whether both children are the zero sentinel.
    pub fn is_empty(&self) -> (r: bool)
        ensures
            r == (mv_is_zero(self.left@) && mv_is_zero(self.right@)),
    {
        self.left.is_zero() && self.right.is_zero()
    }
}

} // verus!
