//! The laws the engine obeys, stated over the same spec functions the
//! operation contracts use, and proved once and for all.

use vstd::prelude::*;
use crate::codec::{
    encode_branch_s, decode_branch_s, decode_mv_at, wf_mv, lemma_branch_round_trip,
};
use crate::h256::{zero32, bit_of, parent_path_s, keep_below_s, set_bit_s, clear_bit_s};
use crate::kv::{SMTValue, zero_value, value_hash_s, lemma_value_round_trip};
use crate::merge::{MvV, mv_zero, mv_is_zero, mv_hash_s, merge_s, merge_with_zero_s, hash_base_node_s};
use crate::error::SmtError;
use crate::compiled::{
    OP_LEAF, OP_ZEROS, vm_run, vm_zeros, compile_single_s, compile_ops, flush_zeros_s,
    sort_leaves_s, sort_upto, insert_sorted_s,
};
use crate::store::{BranchRead, branch_read, branch_db_key_s, leaf_db_key_s};
use crate::tree::{
    walk_step, walk_upto, leaf_write, update_result, root_read, value_read, drop_col,
    agree_outside_col, bitmap_upto, siblings_upto,
};

verus! {

/// A column with nothing stored in it: a fresh namespace.
pub open spec fn col_empty(m: Map<(u8, Seq<u8>), Seq<u8>>, col: u8) -> bool {
    forall|k: (u8, Seq<u8>)| k.0 == col ==> !(#[trigger] m.contains_key(k))
}

/// A decoded branch has digest-width fields.
pub proof fn lemma_decode_branch_wf(s: Seq<u8>)
    ensures
        decode_branch_s(s) matches Some((l, r)) ==> wf_mv(l) && wf_mv(r),
{
    if decode_branch_s(s) is Some {
        match decode_mv_at(s, 0) {
            None => (),
            Some((l, i)) => (),
        }
    }
}

/// Merging summaries with digest-width fields yields one.
pub proof fn lemma_merge_wf(height: u8, node_key: Seq<u8>, l: MvV, r: MvV)
    requires
        wf_mv(l),
        wf_mv(r),
    ensures
        wf_mv(merge_s(height, node_key, l, r)),
{
}

/// Every summary the update walk carries has digest-width fields.
pub proof fn lemma_walk_wf(
    m0: Map<(u8, Seq<u8>), Seq<u8>>,
    col: u8,
    path: Seq<u8>,
    mv0: MvV,
    h: int,
)
    requires
        wf_mv(mv0),
        0 <= h,
    ensures
        walk_upto(m0, col, path, mv0, h) matches Some(st) ==> wf_mv(st.0),
    decreases h,
{
    if h > 0 {
        lemma_walk_wf(m0, col, path, mv0, h - 1);
        if walk_upto(m0, col, path, mv0, h) is Some {
            let st = walk_upto(m0, col, path, mv0, h - 1).unwrap();
            let hh = (h - 1) as u8;
            let pkey = parent_path_s(path, h - 1);
            match branch_read(m0, col, hh, pkey) {
                BranchRead::Malformed => (),
                BranchRead::Node(bl, br) => {
                    lemma_decode_branch_wf(
                        st.1[(col, branch_db_key_s(hh, pkey))],
                    );
                },
                BranchRead::Absent => (),
            }
        }
    }
}

/// The root an update returns is the root the store then shows: reading
/// the root back after an update yields the returned value.
pub proof fn lemma_update_root_agrees(
    m: Map<(u8, Seq<u8>), Seq<u8>>,
    col: u8,
    path: Seq<u8>,
    v: SMTValue,
)
    requires
        update_result(m, col, path, v) is Some,
    ensures
        update_result(m, col, path, v) matches Some(st) && root_read(st.1, col) == Some(st.0),
{
    let mleaf = leaf_write(m, col, path, v);
    let mv0 = MvV::Value(value_hash_s(v));
    let st255 = walk_upto(mleaf, col, path, mv0, 255).unwrap();
    let cur = st255.0;
    let m255 = st255.1;
    lemma_walk_wf(mleaf, col, path, mv0, 255);
    assert(wf_mv(cur));
    let pkey = parent_path_s(path, 255);
    assert(pkey =~= zero32());
    let lr = match branch_read(m255, col, 255, pkey) {
        BranchRead::Malformed => None,
        BranchRead::Node(l, r) => if crate::h256::bit_of(path, 255) {
            Some((l, cur))
        } else {
            Some((cur, r))
        },
        BranchRead::Absent => if crate::h256::bit_of(path, 255) {
            Some((mv_zero(), cur))
        } else {
            Some((cur, mv_zero()))
        },
    };
    let (l, r) = lr.unwrap();
    assert(wf_mv(l) && wf_mv(r)) by {
        match branch_read(m255, col, 255, pkey) {
            BranchRead::Malformed => (),
            BranchRead::Node(bl, br) => {
                lemma_decode_branch_wf(m255[(col, branch_db_key_s(255, pkey))]);
            },
            BranchRead::Absent => (),
        }
    }
    let st = walk_upto(mleaf, col, path, mv0, 256).unwrap();
    assert(walk_upto(mleaf, col, path, mv0, 256) == walk_step(m255, col, path, cur, 255));
    if !mv_is_zero(l) || !mv_is_zero(r) {
        let m2 = m255.insert((col, branch_db_key_s(255, pkey)), encode_branch_s(l, r));
        lemma_branch_round_trip(l, r);
        assert(branch_read(m2, col, 255, zero32()) == BranchRead::Node(l, r));
        assert(root_read(m2, col) == Some(mv_hash_s(merge_s(255, zero32(), l, r))));
    } else {
        let m2 = m255.remove((col, branch_db_key_s(255, pkey)));
        assert(!m2.contains_key((col, branch_db_key_s(255, zero32()))));
        assert(root_read(m2, col) == Some(zero32()));
        assert(merge_s(255, pkey, l, r) == mv_zero());
    }
}

/// A fresh namespace: its root is the zero digest and every key reads as
/// the zero value.
pub proof fn law_fresh_tree(m: Map<(u8, Seq<u8>), Seq<u8>>, col: u8, path: Seq<u8>)
    requires
        col_empty(m, col),
    ensures
        root_read(m, col) == Some(zero32()),
        value_read(m, col, path) == Some(zero_value()),
{
    assert(!m.contains_key((col, branch_db_key_s(255, zero32()))));
}

/// Namespace isolation: two stores that agree outside one column show the
/// same root and the same values in every other column.
pub proof fn law_namespace_isolation(
    m1: Map<(u8, Seq<u8>), Seq<u8>>,
    m2: Map<(u8, Seq<u8>), Seq<u8>>,
    col: u8,
    other: u8,
    path: Seq<u8>,
)
    requires
        agree_outside_col(m1, m2, col),
        other != col,
    ensures
        root_read(m1, other) == root_read(m2, other),
        value_read(m1, other, path) == value_read(m2, other, path),
{
    let bk = (other, branch_db_key_s(255, zero32()));
    let lk = (other, leaf_db_key_s(path));
    assert(drop_col(m1, col).contains_key(bk) == m1.contains_key(bk));
    assert(drop_col(m2, col).contains_key(bk) == m2.contains_key(bk));
    assert(m1.contains_key(bk) ==> drop_col(m1, col)[bk] == m1[bk]);
    assert(m2.contains_key(bk) ==> drop_col(m2, col)[bk] == m2[bk]);
    assert(drop_col(m1, col).contains_key(lk) == m1.contains_key(lk));
    assert(drop_col(m2, col).contains_key(lk) == m2.contains_key(lk));
    assert(m1.contains_key(lk) ==> drop_col(m1, col)[lk] == m1[lk]);
    assert(m2.contains_key(lk) ==> drop_col(m2, col)[lk] == m2[lk]);
}

/// Branch writes never touch a leaf entry: the walk leaves every 32-byte
/// key as the leaf write left it.
pub proof fn lemma_walk_leaf_preserved(
    m0: Map<(u8, Seq<u8>), Seq<u8>>,
    col: u8,
    path: Seq<u8>,
    mv0: MvV,
    h: int,
    leaf: Seq<u8>,
)
    requires
        0 <= h,
        leaf.len() == 32,
    ensures
        walk_upto(m0, col, path, mv0, h) matches Some(st) ==> (st.1.contains_key(
            (col, leaf),
        ) == m0.contains_key((col, leaf)) && (st.1.contains_key((col, leaf)) ==> st.1[
            (col, leaf)
        ] == m0[(col, leaf)])),
    decreases h,
{
    if h > 0 {
        lemma_walk_leaf_preserved(m0, col, path, mv0, h - 1, leaf);
        if walk_upto(m0, col, path, mv0, h) is Some {
            let pkey = parent_path_s(path, h - 1);
            assert(branch_db_key_s((h - 1) as u8, pkey).len() == 33);
        }
    }
}

/// Set then get: after an update whose new root is not zero, the key reads
/// back exactly the written value — or the zero value when the write was a
/// removal.
pub proof fn law_update_then_get(
    m: Map<(u8, Seq<u8>), Seq<u8>>,
    col: u8,
    path: Seq<u8>,
    v: SMTValue,
)
    requires
        path.len() == 32,
        update_result(m, col, path, v) matches Some(st) && st.0 != zero32(),
    ensures
        update_result(m, col, path, v) matches Some(st) && value_read(st.1, col, path) == Some(
            if value_hash_s(v) == zero32() {
                zero_value()
            } else {
                v
            },
        ),
{
    let mleaf = leaf_write(m, col, path, v);
    let mv0 = MvV::Value(value_hash_s(v));
    let st = update_result(m, col, path, v).unwrap();
    lemma_update_root_agrees(m, col, path, v);
    lemma_walk_leaf_preserved(mleaf, col, path, mv0, 256, path);
    if value_hash_s(v) != zero32() {
        lemma_value_round_trip(v);
    }
}


/// Keeping the bits below zero keeps nothing.
pub proof fn lemma_keep_below_zero(s: Seq<u8>)
    ensures
        keep_below_s(s, 0) == zero32(),
{
    assert(keep_below_s(s, 0) =~= zero32());
}

/// Keeping the bits below 256 keeps all of a 32-byte value.
pub proof fn lemma_keep_below_all(s: Seq<u8>)
    requires
        s.len() == 32,
    ensures
        keep_below_s(s, 256) == s,
{
    assert(keep_below_s(s, 256) =~= s);
}

/// Extending the kept range by one bit either picks that bit up from the
/// value or changes nothing, by whether the value has it set.
pub proof fn lemma_keep_below_step(s: Seq<u8>, h: int)
    requires
        0 <= h < 256,
        s.len() == 32,
    ensures
        keep_below_s(s, h + 1) == (if bit_of(s, h) {
            set_bit_s(keep_below_s(s, h), h)
        } else {
            keep_below_s(s, h)
        }),
{
    let jb = h / 8;
    let k = (h % 8) as u8;
    let x = s[jb];
    assert(x & !(0xffu8 << 0) == 0) by (bit_vector);
    if bit_of(s, h) {
        assert((x >> k) & 1 == 1 ==> ((if k == 0 {
            0u8
        } else {
            x & !(0xffu8 << k)
        }) | (1u8 << k)) == (if k >= 7 {
            x
        } else {
            x & !(0xffu8 << ((k + 1) as u8))
        })) by (bit_vector)
            requires
                k < 8,
        ;
        assert(keep_below_s(s, h + 1) =~= set_bit_s(keep_below_s(s, h), h));
    } else {
        assert((x >> k) & 1 != 1 ==> (if k == 0 {
            0u8
        } else {
            x & !(0xffu8 << k)
        }) == (if k >= 7 {
            x
        } else {
            x & !(0xffu8 << ((k + 1) as u8))
        })) by (bit_vector)
            requires
                k < 8,
        ;
        assert(keep_below_s(s, h + 1) =~= keep_below_s(s, h));
    }
}


/// The summary a lone non-zero leaf collapses to after the levels below
/// `h`: its base hash, the path bits seen so far, and the level count.
pub open spec fn lone_leaf_mv(path: Seq<u8>, vh: Seq<u8>, h: int) -> MvV {
    MvV::MergeWithZero {
        base_node: hash_base_node_s(0, parent_path_s(path, 0), vh),
        zero_bits: keep_below_s(path, h),
        zero_count: (if h == 256 {
            0int
        } else {
            h
        }) as u8,
    }
}

/// What the lone leaf's summary is as the walk reaches level `hh`: the
/// bare value hash at the bottom, the collapsed record above it.
pub open spec fn lone_step_cur(path: Seq<u8>, vh: Seq<u8>, hh: int) -> MvV {
    if hh == 0 {
        MvV::Value(vh)
    } else {
        lone_leaf_mv(path, vh, hh)
    }
}

/// The branch the walk stores at level `hh` for a lone leaf: the summary so
/// far on the path's side, the zero sentinel on the other.
pub open spec fn lone_branch_bytes(path: Seq<u8>, vh: Seq<u8>, hh: int) -> Seq<u8> {
    if bit_of(path, hh) {
        encode_branch_s(mv_zero(), lone_step_cur(path, vh, hh))
    } else {
        encode_branch_s(lone_step_cur(path, vh, hh), mv_zero())
    }
}

/// The shape of the walk state over a lone leaf: the collapsed summary so
/// far, no branch stored at the levels still ahead, and at every level
/// passed a stored branch whose sibling side is the zero sentinel.
pub open spec fn lone_walk_shape(
    m0: Map<(u8, Seq<u8>), Seq<u8>>,
    col: u8,
    path: Seq<u8>,
    vh: Seq<u8>,
    h: int,
    st: (MvV, Map<(u8, Seq<u8>), Seq<u8>>),
) -> bool {
    &&& st.0 == lone_leaf_mv(path, vh, h)
    &&& forall|hh: int|
        h <= hh < 256 ==> !(#[trigger] st.1.contains_key(
            (col, branch_db_key_s(hh as u8, parent_path_s(path, hh))),
        ))
    &&& forall|hh: int|
        0 <= hh < h ==> (#[trigger] st.1.contains_key(
            (col, branch_db_key_s(hh as u8, parent_path_s(path, hh))),
        )) && st.1[(col, branch_db_key_s(hh as u8, parent_path_s(path, hh)))]
            == lone_branch_bytes(path, vh, hh)
    &&& forall|k: (u8, Seq<u8>)|
        k.0 == col && (#[trigger] st.1.contains_key(k)) ==> k.1 == leaf_db_key_s(path) || (
        k.1.len() == 33 && k.1[0] < h && k.1 == branch_db_key_s(
            k.1[0],
            parent_path_s(path, k.1[0] as int),
        ))
    &&& forall|k: (u8, Seq<u8>)|
        k.0 != col ==> ((#[trigger] st.1.contains_key(k)) == m0.contains_key(k)) && (
        st.1.contains_key(k) ==> st.1[k] == m0[k])
}

/// Updating a key in a fresh namespace walks up through absent branches
/// alone, collapsing into the lone-leaf summary at every level and storing
/// a branch whose sibling side is the zero sentinel.
pub proof fn lemma_single_leaf_walk(
    m0: Map<(u8, Seq<u8>), Seq<u8>>,
    col: u8,
    path: Seq<u8>,
    v: SMTValue,
    h: int,
)
    requires
        col_empty(m0, col),
        path.len() == 32,
        value_hash_s(v) != zero32(),
        1 <= h <= 256,
    ensures
        walk_upto(
            leaf_write(m0, col, path, v),
            col,
            path,
            MvV::Value(value_hash_s(v)),
            h,
        ) matches Some(st) && lone_walk_shape(m0, col, path, value_hash_s(v), h, st),
    decreases h,
{
    let mleaf = leaf_write(m0, col, path, v);
    let vh = value_hash_s(v);
    let mv0 = MvV::Value(vh);
    if h == 1 {
        let pkey = parent_path_s(path, 0);
        assert(!mleaf.contains_key((col, branch_db_key_s(0, pkey)))) by {
            assert(branch_db_key_s(0, pkey).len() == 33);
            assert(leaf_db_key_s(path).len() == 32);
        }
        assert(branch_read(mleaf, col, 0, pkey) is Absent);
        lemma_keep_below_zero(path);
        lemma_keep_below_step(path, 0);
        assert(walk_upto(mleaf, col, path, mv0, 1) == walk_step(mleaf, col, path, mv0, 0));
        let st = walk_upto(mleaf, col, path, mv0, 1).unwrap();
        assert(st.0 == merge_s(0, pkey, if bit_of(path, 0) {
            mv_zero()
        } else {
            mv0
        }, if bit_of(path, 0) {
            mv0
        } else {
            mv_zero()
        }));
        assert(st.0 == merge_with_zero_s(0, pkey, mv0, bit_of(path, 0)));
        assert(set_bit_s(zero32(), 0) == keep_below_s(path, 1) || zero32() == keep_below_s(
            path,
            1,
        ));
        assert(st.0 == lone_leaf_mv(path, vh, 1));
        assert forall|hh: int| 1 <= hh < 256 implies !(#[trigger] st.1.contains_key(
            (col, branch_db_key_s(hh as u8, parent_path_s(path, hh))),
        )) by {
            let k = (col, branch_db_key_s(hh as u8, parent_path_s(path, hh)));
            assert(branch_db_key_s(hh as u8, parent_path_s(path, hh))[0] == hh as u8);
            assert(branch_db_key_s(hh as u8, parent_path_s(path, hh)).len() == 33);
            assert(!m0.contains_key(k));
        }
        assert(st.1.contains_key((col, branch_db_key_s(0, parent_path_s(path, 0)))) && st.1[
            (col, branch_db_key_s(0, parent_path_s(path, 0)))
        ] == lone_branch_bytes(path, vh, 0));
        assert forall|hh: int| 0 <= hh < 1 implies (#[trigger] st.1.contains_key(
            (col, branch_db_key_s(hh as u8, parent_path_s(path, hh))),
        )) && st.1[(col, branch_db_key_s(hh as u8, parent_path_s(path, hh)))]
            == lone_branch_bytes(path, vh, hh) by {
            assert(hh == 0);
        }
        assert(lone_walk_shape(m0, col, path, vh, 1, st));
    } else {
        lemma_single_leaf_walk(m0, col, path, v, h - 1);
        let prev = walk_upto(mleaf, col, path, mv0, h - 1).unwrap();
        let cur = prev.0;
        let hh = (h - 1) as u8;
        let pkey = parent_path_s(path, h - 1);
        assert(!prev.1.contains_key((col, branch_db_key_s(hh, pkey))));
        assert(branch_read(prev.1, col, hh, pkey) is Absent);
        assert(!mv_is_zero(cur));
        assert(walk_upto(mleaf, col, path, mv0, h) == walk_step(prev.1, col, path, cur, hh));
        let st = walk_upto(mleaf, col, path, mv0, h).unwrap();
        assert(st.0 == merge_with_zero_s(hh, pkey, cur, bit_of(path, h - 1)));
        let wl = if bit_of(path, h - 1) {
            mv_zero()
        } else {
            cur
        };
        let wr = if bit_of(path, h - 1) {
            cur
        } else {
            mv_zero()
        };
        assert(st.1 == prev.1.insert(
            (col, branch_db_key_s(hh, pkey)),
            encode_branch_s(wl, wr),
        ));
        lemma_keep_below_step(path, h - 1);
        assert(st.0 == lone_leaf_mv(path, vh, h));
        assert forall|hh2: int| h <= hh2 < 256 implies !(#[trigger] st.1.contains_key(
            (col, branch_db_key_s(hh2 as u8, parent_path_s(path, hh2))),
        )) by {
            let k2 = (col, branch_db_key_s(hh2 as u8, parent_path_s(path, hh2)));
            assert(branch_db_key_s(hh2 as u8, parent_path_s(path, hh2))[0] == hh2 as u8);
            assert(branch_db_key_s(hh, pkey)[0] == hh);
            assert(!prev.1.contains_key(k2));
        }
        assert forall|hh2: int| 0 <= hh2 < h implies (#[trigger] st.1.contains_key(
            (col, branch_db_key_s(hh2 as u8, parent_path_s(path, hh2))),
        )) && st.1[(col, branch_db_key_s(hh2 as u8, parent_path_s(path, hh2)))]
            == lone_branch_bytes(path, vh, hh2) by {
            let k2 = (col, branch_db_key_s(hh2 as u8, parent_path_s(path, hh2)));
            assert(branch_db_key_s(hh2 as u8, parent_path_s(path, hh2))[0] == hh2 as u8);
            assert(branch_db_key_s(hh, pkey)[0] == hh);
            if hh2 == h - 1 {
                assert(cur == lone_step_cur(path, vh, h - 1));
                assert(st.1.contains_key(k2) && st.1[k2] == lone_branch_bytes(path, vh, hh2));
            } else {
                assert(0 <= hh2 < h - 1);
                assert(prev.1.contains_key(
                    (col, branch_db_key_s(hh2 as u8, parent_path_s(path, hh2))),
                ));
                assert(prev.1[k2] == lone_branch_bytes(path, vh, hh2));
                assert(st.1.contains_key(k2));
                assert(st.1[k2] == prev.1[k2]);
            }
        }
        assert(lone_walk_shape(m0, col, path, vh, h, st));
    }
}

/// The single-leaf law: after writing one non-zero value into a fresh
/// namespace, a proof with no siblings at all — whatever its bitmap says —
/// verifies against the new root through the verifier's one-leaf rule.
pub proof fn law_single_leaf_proof(
    m: Map<(u8, Seq<u8>), Seq<u8>>,
    col: u8,
    path: Seq<u8>,
    v: SMTValue,
    bm: Seq<u8>,
)
    requires
        col_empty(m, col),
        path.len() == 32,
        value_hash_s(v) != zero32(),
    ensures
        update_result(m, col, path, v) matches Some(st) && crate::verify::verify_s(
            path,
            value_hash_s(v),
            bm,
            Seq::empty(),
            st.0,
        ),
{
    lemma_single_leaf_walk(m, col, path, v, 256);
    lemma_keep_below_all(path);
    let vh = value_hash_s(v);
    let st = update_result(m, col, path, v).unwrap();
    assert(st.0 == mv_hash_s(lone_leaf_mv(path, vh, 256)));
    assert(crate::verify::single_leaf_mv_s(path, vh) == lone_leaf_mv(path, vh, 256));
}


/// Below the root of a one-leaf tree every stored sibling side is the zero
/// sentinel, so the proof walk collects no bitmap bits and no siblings.
proof fn lemma_single_leaf_proof_walk(
    m0: Map<(u8, Seq<u8>), Seq<u8>>,
    col: u8,
    path: Seq<u8>,
    v: SMTValue,
    h: int,
)
    requires
        col_empty(m0, col),
        path.len() == 32,
        value_hash_s(v) != zero32(),
        0 <= h <= 256,
        update_result(m0, col, path, v) is Some,
    ensures
        update_result(m0, col, path, v) matches Some(st) && bitmap_upto(st.1, col, path, h)
            == Some(zero32()) && siblings_upto(st.1, col, path, h) == Some(
            Seq::<MvV>::empty(),
        ),
    decreases h,
{
    lemma_single_leaf_walk(m0, col, path, v, 256);
    let st = update_result(m0, col, path, v).unwrap();
    if h == 0 {
    } else {
        lemma_single_leaf_proof_walk(m0, col, path, v, h - 1);
        let vh = value_hash_s(v);
        let bk = (col, branch_db_key_s((h - 1) as u8, parent_path_s(path, h - 1)));
        assert(st.1.contains_key(bk) && st.1[bk] == lone_branch_bytes(path, vh, h - 1));
        let cur = lone_step_cur(path, vh, h - 1);
        assert(wf_mv(cur));
        if bit_of(path, h - 1) {
            lemma_branch_round_trip(mv_zero(), cur);
            assert(branch_read(st.1, col, (h - 1) as u8, parent_path_s(path, h - 1))
                == BranchRead::Node(mv_zero(), cur));
        } else {
            lemma_branch_round_trip(cur, mv_zero());
            assert(branch_read(st.1, col, (h - 1) as u8, parent_path_s(path, h - 1))
                == BranchRead::Node(cur, mv_zero()));
        }
    }
}

/// The one-leaf proof shape: after writing one non-zero value into a fresh
/// namespace, the proof of that key has an all-zero bitmap and no siblings
/// at all, and the verifier's one-leaf rule accepts it.
pub proof fn law_single_leaf_proof_shape(
    m: Map<(u8, Seq<u8>), Seq<u8>>,
    col: u8,
    path: Seq<u8>,
    v: SMTValue,
)
    requires
        col_empty(m, col),
        path.len() == 32,
        value_hash_s(v) != zero32(),
    ensures
        update_result(m, col, path, v) matches Some(st) && bitmap_upto(st.1, col, path, 256)
            == Some(zero32()) && siblings_upto(st.1, col, path, 256) == Some(
            Seq::<MvV>::empty(),
        ),
{
    lemma_single_leaf_walk(m, col, path, v, 256);
    lemma_single_leaf_proof_walk(m, col, path, v, 256);
}


/// Writing the zero value over a lone leaf walks back down the same
/// branches and removes every one of them: each level's stored branch
/// holds the summary on the path side and zero on the other, so replacing
/// the path side with zero collapses the branch entirely.
pub proof fn lemma_single_leaf_removal_walk(
    m0: Map<(u8, Seq<u8>), Seq<u8>>,
    col: u8,
    path: Seq<u8>,
    v: SMTValue,
    h: int,
)
    requires
        col_empty(m0, col),
        path.len() == 32,
        value_hash_s(v) != zero32(),
        1 <= h <= 256,
    ensures
        ({
            let m1 = update_result(m0, col, path, v).unwrap().1;
            let m2leaf = leaf_write(m1, col, path, zero_value());
            walk_upto(m2leaf, col, path, MvV::Value(value_hash_s(zero_value())), h)
                matches Some(st2) && st2.0 == mv_zero() && (forall|k: (u8, Seq<u8>)|
                (#[trigger] st2.1.contains_key(k)) ==> m2leaf.contains_key(k) && st2.1[k]
                    == m2leaf[k]) && (forall|hh: int|
                0 <= hh < h ==> !(#[trigger] st2.1.contains_key(
                    (col, branch_db_key_s(hh as u8, parent_path_s(path, hh))),
                ))) && (forall|k: (u8, Seq<u8>)|
                m2leaf.contains_key(k) && !(k.0 == col && k.1.len() == 33 && k.1[0] < h)
                    ==> (#[trigger] st2.1.contains_key(k)))
        }),
    decreases h,
{
    lemma_single_leaf_walk(m0, col, path, v, 256);
    let vh = value_hash_s(v);
    let m1 = update_result(m0, col, path, v).unwrap().1;
    let m2leaf = leaf_write(m1, col, path, zero_value());
    let mv0 = MvV::Value(value_hash_s(zero_value()));
    assert(value_hash_s(zero_value()) == zero32());
    assert(mv0 == mv_zero());
    let prev: (MvV, Map<(u8, Seq<u8>), Seq<u8>>) = if h == 1 {
        (mv0, m2leaf)
    } else {
        lemma_single_leaf_removal_walk(m0, col, path, v, h - 1);
        walk_upto(m2leaf, col, path, mv0, h - 1).unwrap()
    };
    assert(walk_upto(m2leaf, col, path, mv0, h - 1) == Some(prev));
    let hh = (h - 1) as u8;
    let pkey = parent_path_s(path, h - 1);
    let bk = (col, branch_db_key_s(hh, pkey));
    assert(branch_db_key_s(hh, pkey)[0] == hh);
    assert(branch_db_key_s(hh, pkey).len() == 33);
    assert(m1.contains_key(bk) && m1[bk] == lone_branch_bytes(path, vh, h - 1));
    assert(m2leaf.contains_key(bk) && m2leaf[bk] == lone_branch_bytes(path, vh, h - 1));
    assert(prev.1.contains_key(bk) && prev.1[bk] == lone_branch_bytes(path, vh, h - 1));
    let cur1 = lone_step_cur(path, vh, h - 1);
    assert(wf_mv(cur1));
    if bit_of(path, h - 1) {
        lemma_branch_round_trip(mv_zero(), cur1);
        assert(branch_read(prev.1, col, hh, pkey) == BranchRead::Node(mv_zero(), cur1));
    } else {
        lemma_branch_round_trip(cur1, mv_zero());
        assert(branch_read(prev.1, col, hh, pkey) == BranchRead::Node(cur1, mv_zero()));
    }
    assert(walk_upto(m2leaf, col, path, mv0, h) == walk_step(prev.1, col, path, prev.0, hh));
    let st2 = walk_upto(m2leaf, col, path, mv0, h).unwrap();
    assert(st2.1 == prev.1.remove(bk));
    assert(st2.0 == mv_zero());
    assert forall|hh2: int| 0 <= hh2 < h implies !(#[trigger] st2.1.contains_key(
        (col, branch_db_key_s(hh2 as u8, parent_path_s(path, hh2))),
    )) by {
        assert(branch_db_key_s(hh2 as u8, parent_path_s(path, hh2))[0] == hh2 as u8);
        if hh2 < h - 1 {
            assert(!prev.1.contains_key(
                (col, branch_db_key_s(hh2 as u8, parent_path_s(path, hh2))),
            ));
        }
    }
    assert forall|k: (u8, Seq<u8>)|
        m2leaf.contains_key(k) && !(k.0 == col && k.1.len() == 33 && k.1[0] < h) implies (
    #[trigger] st2.1.contains_key(k)) by {
        assert(prev.1.contains_key(k));
        assert(k != bk);
    }
}

/// The delete round trip on a fresh namespace: writing one non-zero value
/// and then the zero value returns the root to the zero digest and the
/// store to exactly what it held before the first write.
pub proof fn law_delete_round_trip(
    m: Map<(u8, Seq<u8>), Seq<u8>>,
    col: u8,
    path: Seq<u8>,
    v: SMTValue,
)
    requires
        col_empty(m, col),
        path.len() == 32,
        value_hash_s(v) != zero32(),
    ensures
        update_result(m, col, path, v) matches Some(st1) && (update_result(
            st1.1,
            col,
            path,
            zero_value(),
        ) matches Some(st2) && st2.0 == zero32() && st2.1 == m),
{
    lemma_single_leaf_walk(m, col, path, v, 256);
    lemma_single_leaf_removal_walk(m, col, path, v, 256);
    let vh = value_hash_s(v);
    let st1 = update_result(m, col, path, v).unwrap();
    let m2leaf = leaf_write(st1.1, col, path, zero_value());
    assert(value_hash_s(zero_value()) == zero32());
    let st2w = walk_upto(m2leaf, col, path, MvV::Value(value_hash_s(zero_value())), 256).unwrap();
    assert(st2w.0 == mv_zero());
    assert(mv_hash_s(st2w.0) == zero32());
    let mfin = st2w.1;
    assert forall|k: (u8, Seq<u8>)|
        ((#[trigger] mfin.dom().contains(k)) ==> m.dom().contains(k) && mfin[k] == m[k]) && ((
        #[trigger] m.dom().contains(k)) ==> mfin.dom().contains(k)) by {
        if mfin.dom().contains(k) {
            assert(m2leaf.contains_key(k) && mfin[k] == m2leaf[k]);
            if k.0 == col {
                assert(st1.1.contains_key(k) || k == (col, leaf_db_key_s(path)));
                assert(k.1 != leaf_db_key_s(path));
                assert(st1.1.contains_key(k));
                let hb = k.1[0];
                assert(k.1.len() == 33 && hb < 256 && k.1 == branch_db_key_s(
                    hb,
                    parent_path_s(path, hb as int),
                ));
                assert(!mfin.contains_key(
                    (col, branch_db_key_s((hb as int) as u8, parent_path_s(path, hb as int))),
                ));
                assert(false);
            } else {
                assert(st1.1.contains_key(k) && st1.1[k] == m[k] && m.contains_key(k));
            }
        }
        if m.dom().contains(k) {
            assert(k.0 != col);
            assert(st1.1.contains_key(k));
            assert(m2leaf.contains_key(k));
            assert(mfin.contains_key(k));
        }
    }
    assert(mfin =~~= m);
}


/// Clearing one bit leaves every other bit as it was and that bit clear.
pub proof fn lemma_clear_bit_effect(s: Seq<u8>, i: int, j: int)
    requires
        s.len() == 32,
        0 <= i < 256,
        0 <= j < 256,
    ensures
        bit_of(clear_bit_s(s, i), j) == (j != i && bit_of(s, j)),
{
    let x = s[i / 8];
    let ki = (i % 8) as u8;
    let kj = (j % 8) as u8;
    if j / 8 == i / 8 {
        if j == i {
            assert(((x & !(1u8 << ki)) >> ki) & 1 != 1) by (bit_vector)
                requires
                    ki < 8,
            ;
        } else {
            assert(ki != kj ==> (((x & !(1u8 << ki)) >> kj) & 1 == (x >> kj) & 1))
                by (bit_vector)
                requires
                    ki < 8,
                    kj < 8,
            ;
        }
    }
}

/// Clearing a set bit lowers the set-bit count below `h` by one when the
/// bit lies below `h`, and not at all otherwise.
pub proof fn lemma_count_bits_clear(bm: Seq<u8>, i: int, h: int)
    requires
        bm.len() == 32,
        0 <= i < 256,
        bit_of(bm, i),
        0 <= h <= 256,
    ensures
        crate::verify::count_bits_upto(clear_bit_s(bm, i), h)
            == crate::verify::count_bits_upto(bm, h) - (if i < h {
            1int
        } else {
            0int
        }),
    decreases h,
{
    if h > 0 {
        lemma_count_bits_clear(bm, i, h - 1);
        lemma_clear_bit_effect(bm, i, h - 1);
    }
}

/// Tampering with a proof's bitmap is caught: when a proof that carries at
/// least one sibling verifies, the same proof with any set bitmap bit
/// cleared does not.
pub proof fn law_tampered_bitmap(
    path: Seq<u8>,
    vh: Seq<u8>,
    bm: Seq<u8>,
    sibs: Seq<MvV>,
    root: Seq<u8>,
    i: int,
)
    requires
        bm.len() == 32,
        sibs.len() >= 1,
        0 <= i < 256,
        bit_of(bm, i),
        crate::verify::verify_s(path, vh, bm, sibs, root),
    ensures
        !crate::verify::verify_s(path, vh, clear_bit_s(bm, i), sibs, root),
{
    lemma_count_bits_clear(bm, i, 256);
}


/// On a fresh namespace the proof walks find nothing: the bitmap is all
/// zero and the sibling list empty, for any path.
pub proof fn lemma_fresh_proof_walks(
    m: Map<(u8, Seq<u8>), Seq<u8>>,
    col: u8,
    path: Seq<u8>,
    h: int,
)
    requires
        col_empty(m, col),
        0 <= h <= 256,
    ensures
        bitmap_upto(m, col, path, h) == Some(zero32()),
        siblings_upto(m, col, path, h) == Some(Seq::<MvV>::empty()),
    decreases h,
{
    if h > 0 {
        lemma_fresh_proof_walks(m, col, path, h - 1);
        assert(!m.contains_key((col, branch_db_key_s((h - 1) as u8, parent_path_s(path, h - 1)))));
    }
}

/// Writing the zero value into a fresh namespace walks up through absent
/// branches with the zero summary all the way.
pub proof fn lemma_zero_write_walk_fresh(
    m0: Map<(u8, Seq<u8>), Seq<u8>>,
    col: u8,
    path: Seq<u8>,
    h: int,
)
    requires
        col_empty(m0, col),
        path.len() == 32,
        0 <= h <= 256,
    ensures
        walk_upto(
            leaf_write(m0, col, path, zero_value()),
            col,
            path,
            MvV::Value(value_hash_s(zero_value())),
            h,
        ) matches Some(st) && st.0 == mv_zero() && (forall|hh: int|
            h <= hh < 256 ==> !(#[trigger] st.1.contains_key(
                (col, branch_db_key_s(hh as u8, parent_path_s(path, hh))),
            ))),
    decreases h,
{
    let mleaf = leaf_write(m0, col, path, zero_value());
    let mv0 = MvV::Value(value_hash_s(zero_value()));
    assert(value_hash_s(zero_value()) == zero32());
    if h == 0 {
        assert forall|hh: int| 0 <= hh < 256 implies !(#[trigger] mleaf.contains_key(
            (col, branch_db_key_s(hh as u8, parent_path_s(path, hh))),
        )) by {
            assert(branch_db_key_s(hh as u8, parent_path_s(path, hh)).len() == 33);
            assert(!m0.contains_key((col, branch_db_key_s(hh as u8, parent_path_s(path, hh)))));
        }
    } else {
        lemma_zero_write_walk_fresh(m0, col, path, h - 1);
        let prev = walk_upto(mleaf, col, path, mv0, h - 1).unwrap();
        let hh = (h - 1) as u8;
        let pkey = parent_path_s(path, h - 1);
        assert(!prev.1.contains_key((col, branch_db_key_s(hh, pkey))));
        assert(branch_read(prev.1, col, hh, pkey) is Absent);
        assert(walk_upto(mleaf, col, path, mv0, h) == walk_step(prev.1, col, path, prev.0, hh));
        let st = walk_upto(mleaf, col, path, mv0, h).unwrap();
        assert(st.1 == prev.1.remove((col, branch_db_key_s(hh, pkey))));
        assert forall|hh2: int| h <= hh2 < 256 implies !(#[trigger] st.1.contains_key(
            (col, branch_db_key_s(hh2 as u8, parent_path_s(path, hh2))),
        )) by {
            assert(!prev.1.contains_key(
                (col, branch_db_key_s(hh2 as u8, parent_path_s(path, hh2))),
            ));
        }
    }
}

/// What a full run of zero siblings collapses a bare leaf summary to: the
/// zero summary for the zero hash, the lone-leaf record otherwise.
pub open spec fn lone_vm_cur(path: Seq<u8>, vh: Seq<u8>, h: int) -> MvV {
    if vh == zero32() {
        mv_zero()
    } else {
        lone_step_cur(path, vh, h)
    }
}

/// Merging a leaf summary with zero siblings from `h` to the root gives
/// the same collapsed summary the update walk gives over absent branches.
pub proof fn lemma_vm_zeros_collapse(path: Seq<u8>, vh: Seq<u8>, h: int)
    requires
        path.len() == 32,
        0 <= h < 256,
    ensures
        vm_zeros(path, lone_vm_cur(path, vh, h), h as nat, (256 - h) as nat) == Some(
            (256nat, parent_path_s(path, 255), lone_vm_cur(path, vh, 256)),
        ),
    decreases 256 - h,
{
    let cur = lone_vm_cur(path, vh, h);
    let pk = parent_path_s(path, h);
    let v2 = if bit_of(path, h) {
        merge_s(h as u8, pk, mv_zero(), cur)
    } else {
        merge_s(h as u8, pk, cur, mv_zero())
    };
    if vh == zero32() {
        assert(v2 == mv_zero());
    } else {
        assert(v2 == merge_with_zero_s(h as u8, pk, cur, bit_of(path, h)));
        if h == 0 {
            lemma_keep_below_zero(path);
            lemma_keep_below_step(path, 0);
        } else {
            lemma_keep_below_step(path, h);
        }
        assert(v2 == lone_vm_cur(path, vh, h + 1));
    }
    if h == 255 {
        assert(vm_zeros(path, cur, 255nat, 1nat) == Some((256nat, pk, v2)));
    } else {
        lemma_vm_zeros_collapse(path, vh, h + 1);
    }
}

/// A proof found on a fresh namespace compiles to one leaf push and one
/// full run of zero levels.
pub proof fn lemma_compile_of_empty()
    ensures
        compile_single_s(zero32(), Seq::<MvV>::empty()) == seq![OP_LEAF, OP_ZEROS, 0u8],
{
    lemma_compile_zero_run(0, 0);
    assert(compile_ops(zero32(), Seq::<MvV>::empty(), 0, 0, 0) == flush_zeros_s(256));
    assert(seq![OP_LEAF] + flush_zeros_s(256) =~= seq![OP_LEAF, OP_ZEROS, 0u8]);
}

/// The zero-run accumulator swallows every remaining level of an all-zero
/// bitmap and flushes once at the top.
proof fn lemma_compile_zero_run(h: int, zrun: nat)
    requires
        0 <= h <= 256,
    ensures
        compile_ops(zero32(), Seq::<MvV>::empty(), h, 0, zrun) == flush_zeros_s(
            (zrun + 256 - h) as nat,
        ),
    decreases 256 - h,
{
    if h < 256 {
        assert(!bit_of(zero32(), h)) by {
            let k = (h % 8) as u8;
            assert((0u8 >> k) & 1 != 1) by (bit_vector);
        }
        lemma_compile_zero_run(h + 1, zrun + 1);
    }
}

/// The compiled-preview law on a fresh namespace: the proof of any key
/// compiles to the one-leaf program, and replaying that program with a new
/// value hash yields exactly the root the actual update produces.
pub proof fn law_compiled_preview_fresh(
    m: Map<(u8, Seq<u8>), Seq<u8>>,
    col: u8,
    path: Seq<u8>,
    v: SMTValue,
)
    requires
        col_empty(m, col),
        path.len() == 32,
    ensures
        bitmap_upto(m, col, path, 256) == Some(zero32()),
        siblings_upto(m, col, path, 256) == Some(Seq::<MvV>::empty()),
        update_result(m, col, path, v) matches Some(st) && vm_run(
            compile_single_s(zero32(), Seq::<MvV>::empty()),
            sort_leaves_s(seq![(path, value_hash_s(v))]),
            0,
            0,
            Seq::empty(),
        ) == Ok::<Seq<u8>, SmtError>(st.0),
{
    reveal(vm_run);
    lemma_fresh_proof_walks(m, col, path, 256);
    lemma_compile_of_empty();
    let vh = value_hash_s(v);
    let prog = seq![OP_LEAF, OP_ZEROS, 0u8];
    let leaves = seq![(path, vh)];
    assert(sort_leaves_s(leaves) =~= leaves) by {
        assert(sort_upto(leaves, 1) == insert_sorted_s(leaves[0], sort_upto(leaves, 0)));
        assert(insert_sorted_s(leaves[0], Seq::empty()) =~= leaves);
    }

    // The replay: one leaf push, then the full zero run.
    let stack1 = Seq::<(nat, Seq<u8>, MvV)>::empty().push((0nat, path, MvV::Value(vh)));
    assert(vm_run(prog, leaves, 0, 0, Seq::empty()) == vm_run(prog, leaves, 1, 1, stack1));
    lemma_vm_zeros_collapse(path, vh, 0);
    assert(lone_vm_cur(path, vh, 0) == MvV::Value(vh));
    let top = (256nat, parent_path_s(path, 255), lone_vm_cur(path, vh, 256));
    assert(vm_zeros(path, MvV::Value(vh), 0nat, 256nat) == Some(top));
    let stack2 = stack1.drop_last().push(top);
    assert(vm_run(prog, leaves, 1, 1, stack1) == vm_run(prog, leaves, 3, 1, stack2));
    assert(vm_run(prog, leaves, 3, 1, stack2) == Ok::<Seq<u8>, SmtError>(
        mv_hash_s(lone_vm_cur(path, vh, 256)),
    ));

    // The actual update on the fresh namespace gives the same summary.
    if vh == zero32() {
        lemma_zero_write_walk_fresh(m, col, path, 256);
        assert(update_result(m, col, path, v) matches Some(st) && st.0 == mv_hash_s(
            mv_zero(),
        ));
    } else {
        lemma_single_leaf_walk(m, col, path, v, 256);
        assert(update_result(m, col, path, v) matches Some(st) && st.0 == mv_hash_s(
            lone_leaf_mv(path, vh, 256),
        ));
    }
}

} // verus!
