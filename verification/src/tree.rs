//! The sparse Merkle tree over one database column.
//!
//! A tree is never held in memory: every operation walks the stored
//! branches. An update writes the leaf, then recomputes the summaries on the
//! path from the leaf to the root, reading each level's stored branch,
//! writing the recomputed one back (or removing it when it collapses to
//! zero), and returns the hash of the top summary as the new root. The spec
//! functions here state that walk over the stored map, and the contracts
//! say that the operations perform exactly it.

use vstd::prelude::*;
use crate::codec::{encode_branch_s, decode_branch_s};
use crate::error::SmtError;
use crate::h256::{H256, zero32, bit_of, parent_path_s, set_bit_s};
use crate::kv::{SMTValue, encode_value_s, decode_value_s, value_hash_s, zero_value};
use crate::merge::{
    MvV, MergeValue, BranchKey, BranchNode, mv_zero, mv_is_zero, mv_hash_s, merge_s, merge,
};
use crate::db::{ParityDb, StoreError};
use crate::store::{
    BranchRead, branch_read, branch_db_key_s, leaf_db_key_s, store_get_branch,
    store_insert_branch, store_remove_branch, store_insert_leaf, store_remove_leaf,
    store_get_leaf,
};

verus! {

/// The stored map with every entry of one column dropped.
pub open spec fn drop_col(m: Map<(u8, Seq<u8>), Seq<u8>>, col: u8) -> Map<(u8, Seq<u8>), Seq<u8>> {
    m.remove_keys(Set::new(|k: (u8, Seq<u8>)| k.0 == col))
}

/// Whether two stored maps agree on every column but `col`.
pub open spec fn agree_outside_col(
    m1: Map<(u8, Seq<u8>), Seq<u8>>,
    m2: Map<(u8, Seq<u8>), Seq<u8>>,
    col: u8,
) -> bool {
    drop_col(m1, col) == drop_col(m2, col)
}

/// The stored map after the leaf write of an update: a non-zero value is
/// stored at the path, the zero value removes the path.
pub open spec fn leaf_write(
    m: Map<(u8, Seq<u8>), Seq<u8>>,
    col: u8,
    path: Seq<u8>,
    v: SMTValue,
) -> Map<(u8, Seq<u8>), Seq<u8>> {
    if value_hash_s(v) == zero32() {
        m.remove((col, leaf_db_key_s(path)))
    } else {
        m.insert((col, leaf_db_key_s(path)), encode_value_s(v))
    }
}

/// One level of the bottom-up walk: read the stored branch of the parent at
/// `hh`, put the current summary on the path's side, write the new branch
/// back (or remove it when both sides are zero), and merge. A stored branch
/// that does not decode stops the walk.
pub open spec fn walk_step(
    m: Map<(u8, Seq<u8>), Seq<u8>>,
    col: u8,
    path: Seq<u8>,
    cur: MvV,
    hh: u8,
) -> Option<(MvV, Map<(u8, Seq<u8>), Seq<u8>>)> {
    let pkey = parent_path_s(path, hh as int);
    let lr = match branch_read(m, col, hh, pkey) {
        BranchRead::Malformed => None,
        BranchRead::Node(l, r) => if bit_of(path, hh as int) {
            Some((l, cur))
        } else {
            Some((cur, r))
        },
        BranchRead::Absent => if bit_of(path, hh as int) {
            Some((mv_zero(), cur))
        } else {
            Some((cur, mv_zero()))
        },
    };
    match lr {
        None => None,
        Some((l, r)) => {
            let bdbk = (col, branch_db_key_s(hh, pkey));
            let m2 = if !mv_is_zero(l) || !mv_is_zero(r) {
                m.insert(bdbk, encode_branch_s(l, r))
            } else {
                m.remove(bdbk)
            };
            Some((merge_s(hh, pkey, l, r), m2))
        },
    }
}

/// The walk state after the levels below `h`: the current summary and the
/// stored map, starting from the leaf summary and the map after the leaf
/// write.
pub open spec fn walk_upto(
    m0: Map<(u8, Seq<u8>), Seq<u8>>,
    col: u8,
    path: Seq<u8>,
    mv0: MvV,
    h: int,
) -> Option<(MvV, Map<(u8, Seq<u8>), Seq<u8>>)>
    decreases h,
{
    if h <= 0 {
        Some((mv0, m0))
    } else {
        match walk_upto(m0, col, path, mv0, h - 1) {
            None => None,
            Some((cur, m)) => walk_step(m, col, path, cur, (h - 1) as u8),
        }
    }
}

/// What an update does: the new root and the new stored map, or nothing
/// when a stored branch on the path is malformed.
pub open spec fn update_result(
    m: Map<(u8, Seq<u8>), Seq<u8>>,
    col: u8,
    path: Seq<u8>,
    v: SMTValue,
) -> Option<(Seq<u8>, Map<(u8, Seq<u8>), Seq<u8>>)> {
    let mleaf = leaf_write(m, col, path, v);
    match walk_upto(mleaf, col, path, MvV::Value(value_hash_s(v)), 256) {
        None => None,
        Some((cur, m2)) => Some((mv_hash_s(cur), m2)),
    }
}

/// The root a stored map shows for a column: the merge hash of the stored
/// top branch, or the zero digest when no top branch is stored.
pub open spec fn root_read(m: Map<(u8, Seq<u8>), Seq<u8>>, col: u8) -> Option<Seq<u8>> {
    match branch_read(m, col, 255, zero32()) {
        BranchRead::Absent => Some(zero32()),
        BranchRead::Node(l, r) => Some(mv_hash_s(merge_s(255, zero32(), l, r))),
        BranchRead::Malformed => None,
    }
}

/// The value a stored map shows for a path: the zero value when the root is
/// zero or the leaf is absent, otherwise the decoded leaf bytes — with
/// nothing when the stored top branch or the stored leaf is malformed.
pub open spec fn value_read(m: Map<(u8, Seq<u8>), Seq<u8>>, col: u8, path: Seq<u8>) -> Option<
    SMTValue,
> {
    match root_read(m, col) {
        None => None,
        Some(rt) => if rt == zero32() {
            Some(zero_value())
        } else if m.contains_key((col, leaf_db_key_s(path))) {
            decode_value_s(m[(col, leaf_db_key_s(path))])
        } else {
            Some(zero_value())
        },
    }
}

/// Once the walk stops on a malformed branch it stays stopped.
pub proof fn lemma_walk_none_stays(
    m0: Map<(u8, Seq<u8>), Seq<u8>>,
    col: u8,
    path: Seq<u8>,
    mv0: MvV,
    h1: int,
    h2: int,
)
    requires
        0 <= h1 <= h2,
        walk_upto(m0, col, path, mv0, h1) is None,
    ensures
        walk_upto(m0, col, path, mv0, h2) is None,
    decreases h2 - h1,
{
    if h1 < h2 {
        lemma_walk_none_stays(m0, col, path, mv0, h1, h2 - 1);
    }
}

/// The bitmap of a single-path proof, bits below `h` decided: bit `hh` is
/// set iff a branch is stored at the path's parent at `hh` whose sibling
/// side is not the zero sentinel.
pub open spec fn bitmap_upto(
    m: Map<(u8, Seq<u8>), Seq<u8>>,
    col: u8,
    path: Seq<u8>,
    h: int,
) -> Option<Seq<u8>>
    decreases h,
{
    if h <= 0 {
        Some(zero32())
    } else {
        match bitmap_upto(m, col, path, h - 1) {
            None => None,
            Some(bm) => match branch_read(m, col, (h - 1) as u8, parent_path_s(path, h - 1)) {
                BranchRead::Malformed => None,
                BranchRead::Absent => Some(bm),
                BranchRead::Node(l, r) => {
                    let sib = if bit_of(path, h - 1) {
                        l
                    } else {
                        r
                    };
                    if mv_is_zero(sib) {
                        Some(bm)
                    } else {
                        Some(set_bit_s(bm, h - 1))
                    }
                },
            },
        }
    }
}

/// The siblings of a single-path proof, levels below `h`: the non-zero
/// sibling summaries met on the walk, in ascending level order.
pub open spec fn siblings_upto(
    m: Map<(u8, Seq<u8>), Seq<u8>>,
    col: u8,
    path: Seq<u8>,
    h: int,
) -> Option<Seq<MvV>>
    decreases h,
{
    if h <= 0 {
        Some(Seq::empty())
    } else {
        match siblings_upto(m, col, path, h - 1) {
            None => None,
            Some(sibs) => match branch_read(m, col, (h - 1) as u8, parent_path_s(path, h - 1)) {
                BranchRead::Malformed => None,
                BranchRead::Absent => Some(sibs),
                BranchRead::Node(l, r) => {
                    let sib = if bit_of(path, h - 1) {
                        l
                    } else {
                        r
                    };
                    if mv_is_zero(sib) {
                        Some(sibs)
                    } else {
                        Some(sibs.push(sib))
                    }
                },
            },
        }
    }
}

/// Update a leaf and recompute the path to the root; the new root is
/// returned. Every change is in `col`; other columns read as before.
pub fn tree_update(db: &mut ParityDb, col: u8, path: &H256, value: &SMTValue) -> (r: Result<
    H256,
    SmtError,
>)
    ensures
        final(db).columns() == old(db).columns(),
        agree_outside_col(final(db).contents(), old(db).contents(), col),
        match r {
            Err(SmtError::Store(StoreError::InvalidColumnId)) => final(db).contents() == old(
                db,
            ).contents(),
            _ => true,
        },
        match r {
            Ok(root) => col < old(db).columns() && (update_result(
                old(db).contents(),
                col,
                path@,
                *value,
            ) matches Some(st) && root@ == st.0 && final(db).contents() == st.1),
            Err(e) => match e {
                SmtError::CodecError => col < old(db).columns() && update_result(
                    old(db).contents(),
                    col,
                    path@,
                    *value,
                ) is None,
                SmtError::Store(se) => se matches StoreError::InvalidColumnId <==> col >= old(
                    db,
                ).columns(),
                _ => false,
            },
        },
{
    let ghost m_orig = db.contents();
    let ghost mv0 = MvV::Value(value_hash_s(*value));
    let vh = value.to_h256();
    let node = MergeValue::from_h256(vh);

    let write_leaf = if !node.is_zero() {
        store_insert_leaf(db, col, path, value)
    } else {
        store_remove_leaf(db, col, path)
    };
    match write_leaf {
        Ok(_) => (),
        Err(e) => {
            proof {
                assert(drop_col(db.contents(), col) =~= drop_col(m_orig, col));
            }
            return Err(e);
        },
    }
    let ghost m_leaf = db.contents();
    assert(m_leaf == leaf_write(m_orig, col, path@, *value));
    proof {
        assert(drop_col(m_leaf, col) =~= drop_col(m_orig, col));
    }

    let mut current_node = node;
    let mut h: u16 = 0;
    while h < 256
        invariant
            h <= 256,
            col < db.columns(),
            db.columns() == old(db).columns(),
            m_leaf == leaf_write(m_orig, col, path@, *value),
            m_orig == old(db).contents(),
            mv0 == MvV::Value(value_hash_s(*value)),
            walk_upto(m_leaf, col, path@, mv0, h as int) == Some(
                (current_node@, db.contents()),
            ),
            agree_outside_col(db.contents(), m_orig, col),
        decreases 256 - h,
    {
        let ghost m_here = db.contents();
        let ghost cur_before = current_node@;
        let hh = h as u8;
        let parent_key = path.parent_path(hh);
        let pbk = BranchKey::new(hh, parent_key);
        let is_right = path.get_bit(hh);

        let fetched = match store_get_branch(db, col, &pbk) {
            Ok(v) => v,
            Err(e) => {
                proof {
                    if e is CodecError {
                        assert(walk_step(m_here, col, path@, current_node@, hh) is None);
                        assert(walk_upto(m_leaf, col, path@, mv0, h as int + 1) is None);
                        lemma_walk_none_stays(m_leaf, col, path@, mv0, h as int + 1, 256);
                    }
                }
                return Err(e);
            },
        };
        let (left, right) = match fetched {
            Some(parent_branch) => if is_right {
                (parent_branch.left, current_node)
            } else {
                (current_node, parent_branch.right)
            },
            None => if is_right {
                (MergeValue::zero(), current_node)
            } else {
                (current_node, MergeValue::zero())
            },
        };

        let written = if !left.is_zero() || !right.is_zero() {
            let branch = BranchNode { left, right };
            store_insert_branch(db, col, &pbk, &branch)
        } else {
            store_remove_branch(db, col, &pbk)
        };
        match written {
            Ok(_) => (),
            Err(e) => return Err(e),
        }
        proof {
            assert(drop_col(db.contents(), col) =~= drop_col(m_here, col));
        }

        current_node = merge(hh, &parent_key, &left, &right);
        proof {
            assert(walk_step(m_here, col, path@, cur_before, hh) == Some(
                (current_node@, db.contents()),
            ));
            assert(walk_upto(m_leaf, col, path@, mv0, h as int + 1) == Some(
                (current_node@, db.contents()),
            ));
        }
        h = h + 1;
    }
    Ok(current_node.hash())
}

/// Read the root of the tree in `col`: the merge hash of the stored top
/// branch, or the zero digest when none is stored.
pub fn tree_root(db: &ParityDb, col: u8) -> (r: Result<H256, SmtError>)
    ensures
        match r {
            Ok(root) => col < db.columns() && root_read(db.contents(), col) == Some(root@),
            Err(e) => match e {
                SmtError::CodecError => col < db.columns() && root_read(db.contents(), col)
                    is None,
                SmtError::Store(se) => se matches StoreError::InvalidColumnId <==> col
                    >= db.columns(),
                _ => false,
            },
        },
{
    let zero = H256::zero();
    let top = BranchKey::new(255, zero);
    match store_get_branch(db, col, &top) {
        Ok(Some(node)) => {
            let m = merge(255, &zero, &node.left, &node.right);
            Ok(m.hash())
        },
        Ok(None) => Ok(H256::zero()),
        Err(e) => Err(e),
    }
}

/// Read the value stored at `path` in `col`: the zero value when the tree
/// is empty or the leaf absent, the decoded leaf bytes otherwise.
pub fn tree_get(db: &ParityDb, col: u8, path: &H256) -> (r: Result<SMTValue, SmtError>)
    ensures
        match r {
            Ok(v) => col < db.columns() && value_read(db.contents(), col, path@) == Some(v),
            Err(e) => match e {
                SmtError::CodecError => col < db.columns() && value_read(
                    db.contents(),
                    col,
                    path@,
                ) is None,
                SmtError::Store(se) => se matches StoreError::InvalidColumnId <==> col
                    >= db.columns(),
                _ => false,
            },
        },
{
    let root = tree_root(db, col)?;
    if root.is_zero() {
        return Ok(SMTValue::zero());
    }
    match store_get_leaf(db, col, path) {
        Ok(Some(v)) => Ok(v),
        Ok(None) => Ok(SMTValue::zero()),
        Err(e) => Err(e),
    }
}

/// Produce the single-path proof pieces for `path` in `col`: the bitmap of
/// levels with a genuine sibling, and those siblings in ascending order.
pub fn tree_merkle_proof(db: &ParityDb, col: u8, path: &H256) -> (r: Result<
    (H256, Vec<MergeValue>),
    SmtError,
>)
    ensures
        match r {
            Ok(pr) => col < db.columns() && bitmap_upto(db.contents(), col, path@, 256) == Some(
                pr.0@,
            ) && (siblings_upto(db.contents(), col, path@, 256) matches Some(sibs)
                && pr.1@.map_values(|mv: MergeValue| mv@) == sibs),
            Err(e) => match e {
                SmtError::CodecError => col < db.columns() && bitmap_upto(
                    db.contents(),
                    col,
                    path@,
                    256,
                ) is None,
                SmtError::Store(se) => se matches StoreError::InvalidColumnId <==> col
                    >= db.columns(),
                _ => false,
            },
        },
{
    let mut bitmap = H256::zero();
    let mut siblings: Vec<MergeValue> = Vec::new();
    assert(siblings@.map_values(|mv: MergeValue| mv@) =~= Seq::<MvV>::empty());
    let mut h: u16 = 0;
    while h < 256
        invariant
            h <= 256,
            h > 0 ==> col < db.columns(),
            bitmap_upto(db.contents(), col, path@, h as int) == Some(bitmap@),
            siblings_upto(db.contents(), col, path@, h as int) matches Some(sibs)
                && siblings@.map_values(|mv: MergeValue| mv@) == sibs,
        decreases 256 - h,
    {
        let ghost sibs_before = siblings@.map_values(|mv: MergeValue| mv@);
        let hh = h as u8;
        let parent_key = path.parent_path(hh);
        let pbk = BranchKey::new(hh, parent_key);
        let fetched = match store_get_branch(db, col, &pbk) {
            Ok(v) => v,
            Err(e) => {
                proof {
                    if e is CodecError {
                        lemma_bitmap_none_stays(db.contents(), col, path@, h as int + 1, 256);
                    }
                }
                return Err(e);
            },
        };
        match fetched {
            Some(parent_branch) => {
                let sibling = if path.get_bit(hh) {
                    parent_branch.left
                } else {
                    parent_branch.right
                };
                if !sibling.is_zero() {
                    bitmap.set_bit(hh);
                    siblings.push(sibling);
                    assert(siblings@.map_values(|mv: MergeValue| mv@) =~= sibs_before.push(
                        sibling@,
                    ));
                }
            },
            None => (),
        }
        h = h + 1;
    }
    Ok((bitmap, siblings))
}

/// Once the bitmap walk stops on a malformed branch it stays stopped.
pub proof fn lemma_bitmap_none_stays(
    m: Map<(u8, Seq<u8>), Seq<u8>>,
    col: u8,
    path: Seq<u8>,
    h1: int,
    h2: int,
)
    requires
        0 <= h1 <= h2,
        bitmap_upto(m, col, path, h1) is None,
    ensures
        bitmap_upto(m, col, path, h2) is None,
    decreases h2 - h1,
{
    if h1 < h2 {
        lemma_bitmap_none_stays(m, col, path, h1, h2 - 1);
    }
}


/// A per-operation tree handle: the column a tree lives in and its root as
/// last read from the store.
pub struct SparseMerkleTree {
    pub root: H256,
    pub col: u8,
}

impl SparseMerkleTree {
    /// The root this handle was opened with.
    pub fn root(&self) -> (r: &H256)
        ensures
            r@ == self.root@,
    {
        &self.root
    }
}

/// What a run of updates does, given the root to report when no update is
/// left: each update feeds the next, and the last root wins.
pub open spec fn multi_update_from(
    m: Map<(u8, Seq<u8>), Seq<u8>>,
    col: u8,
    kvs: Seq<(Seq<u8>, SMTValue)>,
    racc: Seq<u8>,
) -> Option<(Seq<u8>, Map<(u8, Seq<u8>), Seq<u8>>)>
    decreases kvs.len(),
{
    if kvs.len() == 0 {
        Some((racc, m))
    } else {
        match update_result(m, col, kvs[0].0, kvs[0].1) {
            None => None,
            Some((rt, m2)) => multi_update_from(m2, col, kvs.drop_first(), rt),
        }
    }
}

/// Apply the updates in order and return the root after the last one, or
/// the tree's current root when none are given.
pub fn tree_update_all(db: &mut ParityDb, col: u8, kvs: &Vec<(H256, SMTValue)>) -> (r: Result<
    H256,
    SmtError,
>)
    ensures
        final(db).columns() == old(db).columns(),
        agree_outside_col(final(db).contents(), old(db).contents(), col),
        match r {
            Err(SmtError::Store(StoreError::InvalidColumnId)) => final(db).contents() == old(
                db,
            ).contents(),
            _ => true,
        },
        ({
            let paths = kvs@.map_values(|kv: (H256, SMTValue)| (kv.0@, kv.1));
            match r {
                Ok(root) => col < old(db).columns() && (root_read(old(db).contents(), col)
                    matches Some(r0) && multi_update_from(old(db).contents(), col, paths, r0)
                    == Some((root@, final(db).contents()))),
                Err(e) => match e {
                    SmtError::CodecError => col < old(db).columns() && (root_read(
                        old(db).contents(),
                        col,
                    ) is None || (root_read(old(db).contents(), col) matches Some(r0)
                        && multi_update_from(old(db).contents(), col, paths, r0) is None)),
                    SmtError::Store(se) => se matches StoreError::InvalidColumnId <==> col
                        >= old(db).columns(),
                    _ => false,
                },
            }
        }),
{
    let ghost m0 = db.contents();
    let ghost paths = kvs@.map_values(|kv: (H256, SMTValue)| (kv.0@, kv.1));
    let mut root = tree_root(db, col)?;
    let ghost r0 = root@;
    assert(paths.skip(0) =~= paths);
    let mut i: usize = 0;
    while i < kvs.len()
        invariant
            i <= kvs@.len(),
            col < db.columns(),
            db.columns() == old(db).columns(),
            m0 == old(db).contents(),
            paths == kvs@.map_values(|kv: (H256, SMTValue)| (kv.0@, kv.1)),
            root_read(m0, col) == Some(r0),
            multi_update_from(m0, col, paths, r0) == multi_update_from(
                db.contents(),
                col,
                paths.skip(i as int),
                root@,
            ),
            agree_outside_col(db.contents(), m0, col),
        decreases kvs@.len() - i,
    {
        let kv = &kvs[i];
        let ghost m_here = db.contents();
        match tree_update(db, col, &kv.0, &kv.1) {
            Ok(rt) => {
                proof {
                    assert(paths.skip(i as int)[0] == (kv.0@, kv.1));
                    assert(paths.skip(i as int).drop_first() =~= paths.skip(i as int + 1));
                }
                root = rt;
            },
            Err(e) => {
                proof {
                    if e is CodecError {
                        assert(paths.skip(i as int)[0] == (kv.0@, kv.1));
                        assert(multi_update_from(db.contents(), col, paths.skip(i as int), r0)
                            is None || true);
                    }
                }
                return Err(e);
            },
        }
        i = i + 1;
    }
    proof {
        assert(paths.skip(kvs@.len() as int) =~= Seq::<(Seq<u8>, SMTValue)>::empty());
    }
    Ok(root)
}

} // verus!
