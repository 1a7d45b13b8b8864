//! The multi-tree registry: many independent trees in one database.
//!
//! Each namespace is a database column holding one tree. The registry opens
//! the database and runs the user operations; a tree handle is made fresh
//! for each operation, so no tree state lives outside the store.

use vstd::prelude::*;
use crate::compiled::{
    compile_single_s, compute_root, compile_proof, sort_leaves_s, vm_run,
};
use crate::db::{ParityDb, StoreError};
use crate::error::SmtError;
use crate::h256::{H256, zero32};
use crate::kv::{SMTKey, SMTValue, key_hash_s, value_hash_s, zero_value};
use crate::merge::{MvV, MergeValue};
use crate::tree::{
    SparseMerkleTree, tree_root, tree_get, tree_update, tree_update_all, tree_merkle_proof,
    update_result, multi_update_from, root_read, value_read, bitmap_upto, siblings_upto,
    agree_outside_col, drop_col,
};
use crate::verify::{Proof, verify as smt_verify, verify_s};

verus! {

/// Many sparse Merkle trees stored in one database, one per column.
pub struct MultiSMTParityStore {
    store: ParityDb,
}

impl MultiSMTParityStore {
    /// The map the database holds.
    pub closed spec fn contents(&self) -> Map<(u8, Seq<u8>), Seq<u8>> {
        self.store.contents()
    }

    /// How many columns — trees — the database was opened with.
    pub closed spec fn columns(&self) -> u8 {
        self.store.columns()
    }

    /// Open the database at `path`, creating it when absent.
    pub fn open(path: &str, num_columns: u8) -> (r: Result<MultiSMTParityStore, SmtError>)
        ensures
            r matches Ok(s) ==> s.columns() == num_columns,
    {
        match ParityDb::open_or_create(path, num_columns) {
            Ok(db) => Ok(MultiSMTParityStore { store: db }),
            Err(e) => Err(SmtError::Store(e)),
        }
    }

    /// Open the tree in `col`: read its current root.
    pub fn new_tree_with_store(&self, col: u8) -> (r: Result<SparseMerkleTree, SmtError>)
        ensures
            match r {
                Ok(t) => col < self.columns() && t.col == col && root_read(self.contents(), col)
                    == Some(t.root@),
                Err(e) => match e {
                    SmtError::CodecError => col < self.columns() && root_read(
                        self.contents(),
                        col,
                    ) is None,
                    SmtError::Store(se) => se matches StoreError::InvalidColumnId <==> col
                        >= self.columns(),
                    _ => false,
                },
            },
    {
        let root = tree_root(&self.store, col)?;
        Ok(SparseMerkleTree { root, col })
    }

    /// Set `key` to `value` in the tree in `col` and return the new root;
    /// the zero value removes the key. Other trees are untouched.
    pub fn update(&mut self, col: u8, key: &SMTKey, value: &SMTValue) -> (r: Result<
        H256,
        SmtError,
    >)
        ensures
            final(self).columns() == old(self).columns(),
            agree_outside_col(final(self).contents(), old(self).contents(), col),
            match r {
                Err(SmtError::Store(StoreError::InvalidColumnId)) => final(self).contents()
                    == old(self).contents(),
                _ => true,
            },
            match r {
                Ok(root) => col < old(self).columns() && (root_read(old(self).contents(), col)
                    is Some) && (update_result(
                    old(self).contents(),
                    col,
                    key_hash_s(key.address@),
                    *value,
                ) matches Some(st) && root@ == st.0 && final(self).contents() == st.1),
                Err(e) => match e {
                    SmtError::CodecError => col < old(self).columns() && (root_read(
                        old(self).contents(),
                        col,
                    ) is None || update_result(
                        old(self).contents(),
                        col,
                        key_hash_s(key.address@),
                        *value,
                    ) is None),
                    SmtError::Store(se) => se matches StoreError::InvalidColumnId <==> col
                        >= old(self).columns(),
                    _ => false,
                },
            },
    {
        let _tree = self.new_tree_with_store(col)?;
        let path = key.to_h256();
        tree_update(&mut self.store, col, &path, value)
    }

    /// Apply the updates in order in the tree in `col` and return the root
    /// after the last one.
    pub fn update_all(&mut self, col: u8, kvs: &Vec<(SMTKey, SMTValue)>) -> (r: Result<
        H256,
        SmtError,
    >)
        ensures
            final(self).columns() == old(self).columns(),
            agree_outside_col(final(self).contents(), old(self).contents(), col),
            match r {
                Err(SmtError::Store(StoreError::InvalidColumnId)) => final(self).contents()
                    == old(self).contents(),
                _ => true,
            },
            ({
                let paths = kvs@.map_values(
                    |kv: (SMTKey, SMTValue)| (key_hash_s(kv.0.address@), kv.1),
                );
                match r {
                    Ok(root) => col < old(self).columns() && (root_read(
                        old(self).contents(),
                        col,
                    ) matches Some(r0) && multi_update_from(old(self).contents(), col, paths, r0)
                        == Some((root@, final(self).contents()))),
                    Err(e) => match e {
                        SmtError::CodecError => col < old(self).columns() && (root_read(
                            old(self).contents(),
                            col,
                        ) is None || (root_read(old(self).contents(), col) matches Some(r0)
                            && multi_update_from(old(self).contents(), col, paths, r0)
                            is None)),
                        SmtError::Store(se) => se matches StoreError::InvalidColumnId <==> col
                            >= old(self).columns(),
                        _ => false,
                    },
                }
            }),
    {
        let mut pairs: Vec<(H256, SMTValue)> = Vec::new();
        let mut i: usize = 0;
        while i < kvs.len()
            invariant
                i <= kvs@.len(),
                pairs@.len() == i,
                forall|k: int|
                    0 <= k < i ==> (#[trigger] pairs@[k]).0@ == key_hash_s(kvs@[k].0.address@)
                        && pairs@[k].1 == kvs@[k].1,
            decreases kvs@.len() - i,
        {
            let kv = &kvs[i];
            let path = kv.0.to_h256();
            pairs.push((path, kv.1));
            i = i + 1;
        }
        proof {
            assert(pairs@.map_values(|kv: (H256, SMTValue)| (kv.0@, kv.1)) =~~= kvs@.map_values(
                |kv: (SMTKey, SMTValue)| (key_hash_s(kv.0.address@), kv.1),
            ));
        }
        tree_update_all(&mut self.store, col, &pairs)
    }

    /// The current root of the tree in `col`; the zero digest for a tree
    /// never written.
    pub fn get_root(&self, col: u8) -> (r: Result<H256, SmtError>)
        ensures
            match r {
                Ok(root) => col < self.columns() && root_read(self.contents(), col) == Some(
                    root@,
                ),
                Err(e) => match e {
                    SmtError::CodecError => col < self.columns() && root_read(
                        self.contents(),
                        col,
                    ) is None,
                    SmtError::Store(se) => se matches StoreError::InvalidColumnId <==> col
                        >= self.columns(),
                    _ => false,
                },
            },
    {
        let tree = self.new_tree_with_store(col)?;
        Ok(tree.root)
    }

    /// The value stored under `key` in the tree in `col`; the zero value
    /// when absent.
    pub fn get_value(&self, col: u8, key: &SMTKey) -> (r: Result<SMTValue, SmtError>)
        ensures
            match r {
                Ok(v) => col < self.columns() && value_read(
                    self.contents(),
                    col,
                    key_hash_s(key.address@),
                ) == Some(v),
                Err(e) => match e {
                    SmtError::CodecError => col < self.columns() && value_read(
                        self.contents(),
                        col,
                        key_hash_s(key.address@),
                    ) is None,
                    SmtError::Store(se) => se matches StoreError::InvalidColumnId <==> col
                        >= self.columns(),
                    _ => false,
                },
            },
    {
        let _tree = self.new_tree_with_store(col)?;
        let path = key.to_h256();
        tree_get(&self.store, col, &path)
    }

    /// The proof bundle for `key` in the tree in `col`: the key and its
    /// stored value, the path and value hash, the root, and the witness.
    pub fn get_merkle_proof(&self, col: u8, key: &SMTKey) -> (r: Result<Proof, SmtError>)
        ensures
            match r {
                Ok(p) => {
                    let path = key_hash_s(key.address@);
                    &&& col < self.columns()
                    &&& p.key.address@ == key.address@
                    &&& p.path@ == path
                    &&& value_read(self.contents(), col, path) == Some(p.value)
                    &&& p.value_hash@ == value_hash_s(p.value)
                    &&& root_read(self.contents(), col) == Some(p.root@)
                    &&& bitmap_upto(self.contents(), col, path, 256) == Some(p.leave_bitmap@)
                    &&& (siblings_upto(self.contents(), col, path, 256) matches Some(sibs)
                        && p.siblings@.map_values(|mv: MergeValue| mv@) == sibs)
                },
                Err(e) => match e {
                    SmtError::CodecError => col < self.columns() && (root_read(
                        self.contents(),
                        col,
                    ) is None || bitmap_upto(
                        self.contents(),
                        col,
                        key_hash_s(key.address@),
                        256,
                    ) is None || value_read(
                        self.contents(),
                        col,
                        key_hash_s(key.address@),
                    ) is None),
                    SmtError::Store(se) => se matches StoreError::InvalidColumnId <==> col
                        >= self.columns(),
                    _ => false,
                },
            },
    {
        let tree = self.new_tree_with_store(col)?;
        let path = key.to_h256();
        let (leave_bitmap, siblings) = tree_merkle_proof(&self.store, col, &path)?;
        let value = tree_get(&self.store, col, &path)?;
        let value_hash = value.to_h256();
        Ok(
            Proof {
                key: SMTKey { address: key.address.clone() },
                value,
                path,
                value_hash,
                root: tree.root,
                leave_bitmap,
                siblings,
            },
        )
    }

    /// The compiled byte form of the proof for one key in the tree in
    /// `col`; only single-key proofs are emitted.
    pub fn get_merkle_proof_old(&self, col: u8, keys: &Vec<SMTKey>) -> (r: Result<
        Vec<u8>,
        SmtError,
    >)
        ensures
            keys@.len() == 0 ==> (r matches Err(e) && e matches SmtError::EmptyKeys),
            keys@.len() > 1 ==> (r matches Err(e)
                && e matches SmtError::IncorrectNumberOfLeaves { .. }),
            match r {
                Ok(bytes) => keys@.len() == 1 && col < self.columns() && ({
                    let path = key_hash_s(keys@[0].address@);
                    &&& bitmap_upto(self.contents(), col, path, 256) matches Some(bm)
                        && (siblings_upto(self.contents(), col, path, 256) matches Some(sibs)
                        && bytes@ == compile_single_s(bm, sibs))
                }),
                Err(_) => true,
            },
    {
        if keys.len() == 0 {
            return Err(SmtError::EmptyKeys);
        }
        if keys.len() != 1 {
            return Err(SmtError::IncorrectNumberOfLeaves { expected: 1, actual: keys.len() });
        }
        let path = keys[0].to_h256();
        let (leave_bitmap, siblings) = tree_merkle_proof(&self.store, col, &path)?;
        match compile_proof(&leave_bitmap, &siblings) {
            Ok(bytes) => Ok(bytes),
            Err(e) => Err(e),
        }
    }

    /// Run a compiled proof against new key and value pairs and return the
    /// root the tree would have after writing them.
    pub fn get_next_root(&self, old_proof: &Vec<u8>, next_kvs: &Vec<(SMTKey, SMTValue)>) -> (r:
        Result<H256, SmtError>)
        ensures
            ({
                let lm = sort_leaves_s(
                    next_kvs@.map_values(
                        |kv: (SMTKey, SMTValue)| (
                            key_hash_s(kv.0.address@),
                            value_hash_s(kv.1),
                        ),
                    ),
                );
                match r {
                    Ok(root) => vm_run(old_proof@, lm, 0, 0, Seq::empty()) == Ok::<
                        Seq<u8>,
                        SmtError,
                    >(root@),
                    Err(e) => vm_run(old_proof@, lm, 0, 0, Seq::empty()) == Err::<
                        Seq<u8>,
                        SmtError,
                    >(e),
                }
            }),
    {
        let mut leaves: Vec<(H256, H256)> = Vec::new();
        let mut i: usize = 0;
        while i < next_kvs.len()
            invariant
                i <= next_kvs@.len(),
                leaves@.len() == i,
                forall|k: int|
                    0 <= k < i ==> (#[trigger] leaves@[k]).0@ == key_hash_s(
                        next_kvs@[k].0.address@,
                    ) && leaves@[k].1@ == value_hash_s(next_kvs@[k].1),
            decreases next_kvs@.len() - i,
        {
            let kv = &next_kvs[i];
            let path = kv.0.to_h256();
            let vh = kv.1.to_h256();
            leaves.push((path, vh));
            i = i + 1;
        }
        proof {
            assert(leaves@.map_values(|p: (H256, H256)| (p.0@, p.1@)) =~~= next_kvs@.map_values(
                |kv: (SMTKey, SMTValue)| (key_hash_s(kv.0.address@), value_hash_s(kv.1)),
            ));
        }
        compute_root(old_proof, leaves)
    }

    /// Destroy the tree in `col`: every key of that column is removed and
    /// its root reads as zero again; other trees are untouched.
    pub fn clear(&mut self, col: u8) -> (r: Result<(), SmtError>)
        ensures
            final(self).columns() == old(self).columns(),
            match r {
                Ok(_) => col < old(self).columns() && final(self).contents() == drop_col(
                    old(self).contents(),
                    col,
                ),
                Err(e) => match e {
                    SmtError::Store(se) => se matches StoreError::InvalidColumnId <==> col
                        >= old(self).columns(),
                    _ => false,
                },
            },
    {
        match self.store.clear_column(col) {
            Ok(_) => Ok(()),
            Err(e) => Err(SmtError::Store(e)),
        }
    }

    /// Verify a proof bundle: a proof carrying the zero value is rejected,
    /// any other is checked against its root.
    pub fn verify(&self, proof: &Proof) -> (r: bool)
        ensures
            r == (proof.value != zero_value() && verify_s(
                proof.path@,
                proof.value_hash@,
                proof.leave_bitmap@,
                proof.siblings@.map_values(|mv: MergeValue| mv@),
                proof.root@,
            )),
    {
        if proof.value == SMTValue::zero() {
            return false;
        }
        let mut siblings: Vec<MergeValue> = Vec::new();
        let mut i: usize = 0;
        while i < proof.siblings.len()
            invariant
                i <= proof.siblings@.len(),
                siblings@ == proof.siblings@.subrange(0, i as int),
            decreases proof.siblings@.len() - i,
        {
            siblings.push(proof.siblings[i]);
            assert(siblings@ =~= proof.siblings@.subrange(0, i + 1 as int));
            i = i + 1;
        }
        assert(siblings@ =~= proof.siblings@);
        smt_verify(proof.path, proof.value_hash, proof.leave_bitmap, siblings, proof.root)
    }
}

} // verus!
