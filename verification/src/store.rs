//! The store adapter: one tree's branches and leaves in one database column.
//!
//! A branch at `(height, node_key)` is stored under the 33-byte key
//! `height || node_key`; a leaf at `path` under the 32 bytes of `path`.
//! The two key shapes have different lengths, so they never collide.

use vstd::prelude::*;
use crate::codec::{encode_branch_s, decode_branch_s, encode_branch, decode_branch, append_vec};
use crate::error::SmtError;
use crate::h256::H256;
use crate::kv::{SMTValue, encode_value_s, decode_value_s};
use crate::merge::{BranchKey, BranchNode, MvV};
use crate::db::{ParityDb, StoreError};

verus! {

/// The database key of a branch: its height byte, then its node key.
pub open spec fn branch_db_key_s(height: u8, node_key: Seq<u8>) -> Seq<u8> {
    seq![height] + node_key
}

/// The database key of a leaf: its 32-byte path.
pub open spec fn leaf_db_key_s(path: Seq<u8>) -> Seq<u8> {
    path
}

/// What a branch lookup finds in the stored map.
pub enum BranchRead {
    /// No branch is stored there.
    Absent,
    /// A branch is stored and decodes to these two child summaries.
    Node(MvV, MvV),
    /// Bytes are stored there but do not decode as a branch.
    Malformed,
}

/// The branch stored at `(height, node_key)` in `col`, as the map shows it.
pub open spec fn branch_read(
    m: Map<(u8, Seq<u8>), Seq<u8>>,
    col: u8,
    height: u8,
    node_key: Seq<u8>,
) -> BranchRead {
    let k = (col, branch_db_key_s(height, node_key));
    if m.contains_key(k) {
        match decode_branch_s(m[k]) {
            Some((l, r)) => BranchRead::Node(l, r),
            None => BranchRead::Malformed,
        }
    } else {
        BranchRead::Absent
    }
}

/// The database key of a branch.
pub fn branch_db_key(key: &BranchKey) -> (r: Vec<u8>)
    ensures
        r@ == branch_db_key_s(key.height, key.node_key@),
{
    let mut out: Vec<u8> = Vec::new();
    out.push(key.height);
    let body = key.node_key.to_vec();
    append_vec(&mut out, &body);
    assert(out@ =~= branch_db_key_s(key.height, key.node_key@));
    out
}

/// Read the branch at `key` in `col`; stored bytes that do not decode are a
/// codec error.
pub fn store_get_branch(db: &ParityDb, col: u8, key: &BranchKey) -> (r: Result<
    Option<BranchNode>,
    SmtError,
>)
    ensures
        match r {
            Ok(opt) => col < db.columns() && (match opt {
                Some(node) => branch_read(db.contents(), col, key.height, key.node_key@)
                    == BranchRead::Node(node.left@, node.right@),
                None => branch_read(db.contents(), col, key.height, key.node_key@)
                    is Absent,
            }),
            Err(e) => match e {
                SmtError::CodecError => col < db.columns() && branch_read(
                    db.contents(),
                    col,
                    key.height,
                    key.node_key@,
                ) is Malformed,
                SmtError::Store(se) => match se {
                    StoreError::InvalidColumnId => col >= db.columns(),
                    StoreError::DbError(_) => col < db.columns(),
                },
                _ => false,
            },
        },
{
    let dbk = branch_db_key(key);
    match db.get(col, &dbk) {
        Ok(Some(bytes)) => match decode_branch(bytes.as_slice()) {
            Some(node) => Ok(Some(node)),
            None => Err(SmtError::CodecError),
        },
        Ok(None) => Ok(None),
        Err(e) => Err(SmtError::Store(e)),
    }
}

/// Write the branch at `key` in `col`.
pub fn store_insert_branch(db: &mut ParityDb, col: u8, key: &BranchKey, node: &BranchNode) -> (r:
    Result<(), SmtError>)
    ensures
        final(db).columns() == old(db).columns(),
        match r {
            Ok(_) => col < old(db).columns() && final(db).contents() == old(
                db,
            ).contents().insert(
                (col, branch_db_key_s(key.height, key.node_key@)),
                encode_branch_s(node.left@, node.right@),
            ),
            Err(e) => final(db).contents() == old(db).contents() && (match e {
                SmtError::Store(se) => se matches StoreError::InvalidColumnId <==> col >= old(
                    db,
                ).columns(),
                _ => false,
            }),
        },
{
    let dbk = branch_db_key(key);
    let bytes = encode_branch(node);
    match db.insert(col, &dbk, &bytes) {
        Ok(_) => Ok(()),
        Err(e) => Err(SmtError::Store(e)),
    }
}

/// Remove the branch at `key` in `col`.
pub fn store_remove_branch(db: &mut ParityDb, col: u8, key: &BranchKey) -> (r: Result<(), SmtError>)
    ensures
        final(db).columns() == old(db).columns(),
        match r {
            Ok(_) => col < old(db).columns() && final(db).contents() == old(
                db,
            ).contents().remove((col, branch_db_key_s(key.height, key.node_key@))),
            Err(e) => final(db).contents() == old(db).contents() && (match e {
                SmtError::Store(se) => se matches StoreError::InvalidColumnId <==> col >= old(
                    db,
                ).columns(),
                _ => false,
            }),
        },
{
    let dbk = branch_db_key(key);
    match db.delete(col, &dbk) {
        Ok(_) => Ok(()),
        Err(e) => Err(SmtError::Store(e)),
    }
}

/// Write the leaf at `path` in `col`.
pub fn store_insert_leaf(db: &mut ParityDb, col: u8, path: &H256, value: &SMTValue) -> (r: Result<
    (),
    SmtError,
>)
    ensures
        final(db).columns() == old(db).columns(),
        match r {
            Ok(_) => col < old(db).columns() && final(db).contents() == old(
                db,
            ).contents().insert((col, leaf_db_key_s(path@)), encode_value_s(*value)),
            Err(e) => final(db).contents() == old(db).contents() && (match e {
                SmtError::Store(se) => se matches StoreError::InvalidColumnId <==> col >= old(
                    db,
                ).columns(),
                _ => false,
            }),
        },
{
    let dbk = path.to_vec();
    let bytes = value.encode();
    match db.insert(col, &dbk, &bytes) {
        Ok(_) => Ok(()),
        Err(e) => Err(SmtError::Store(e)),
    }
}

/// Remove the leaf at `path` in `col`.
pub fn store_remove_leaf(db: &mut ParityDb, col: u8, path: &H256) -> (r: Result<(), SmtError>)
    ensures
        final(db).columns() == old(db).columns(),
        match r {
            Ok(_) => col < old(db).columns() && final(db).contents() == old(
                db,
            ).contents().remove((col, leaf_db_key_s(path@))),
            Err(e) => final(db).contents() == old(db).contents() && (match e {
                SmtError::Store(se) => se matches StoreError::InvalidColumnId <==> col >= old(
                    db,
                ).columns(),
                _ => false,
            }),
        },
{
    let dbk = path.to_vec();
    match db.delete(col, &dbk) {
        Ok(_) => Ok(()),
        Err(e) => Err(SmtError::Store(e)),
    }
}

/// Read the leaf at `path` in `col`; stored bytes that do not decode are a
/// codec error.
pub fn store_get_leaf(db: &ParityDb, col: u8, path: &H256) -> (r: Result<Option<SMTValue>, SmtError>)
    ensures
        match r {
            Ok(opt) => col < db.columns() && (match opt {
                Some(v) => db.contents().contains_key((col, leaf_db_key_s(path@)))
                    && decode_value_s(db.contents()[(col, leaf_db_key_s(path@))]) == Some(v),
                None => !db.contents().contains_key((col, leaf_db_key_s(path@))),
            }),
            Err(e) => match e {
                SmtError::CodecError => col < db.columns() && db.contents().contains_key(
                    (col, leaf_db_key_s(path@)),
                ) && decode_value_s(db.contents()[(col, leaf_db_key_s(path@))]) is None,
                SmtError::Store(se) => match se {
                    StoreError::InvalidColumnId => col >= db.columns(),
                    StoreError::DbError(_) => col < db.columns(),
                },
                _ => false,
            },
        },
{
    let dbk = path.to_vec();
    match db.get(col, &dbk) {
        Ok(Some(bytes)) => match SMTValue::from_bytes(bytes.as_slice()) {
            Some(v) => Ok(Some(v)),
            None => Err(SmtError::CodecError),
        },
        Ok(None) => Ok(None),
        Err(e) => Err(SmtError::Store(e)),
    }
}

/// One tree's store: a database bound to the column that holds the tree.
pub struct SMTParityStore {
    store: ParityDb,
    col: u8,
}

impl SMTParityStore {
    /// The map the database holds.
    pub closed spec fn contents(&self) -> Map<(u8, Seq<u8>), Seq<u8>> {
        self.store.contents()
    }

    /// The column this tree lives in.
    pub closed spec fn column(&self) -> u8 {
        self.col
    }

    /// How many columns the database has.
    pub closed spec fn columns(&self) -> u8 {
        self.store.columns()
    }

    /// Bind a database to a column.
    pub fn new(db: ParityDb, col: u8) -> (r: SMTParityStore)
        ensures
            r.contents() == db.contents(),
            r.column() == col,
            r.columns() == db.columns(),
    {
        SMTParityStore { store: db, col }
    }

    /// Read the branch at `key`.
    pub fn get_branch(&self, key: &BranchKey) -> (r: Result<Option<BranchNode>, SmtError>)
        ensures
            match r {
                Ok(opt) => match opt {
                    Some(node) => branch_read(
                        self.contents(),
                        self.column(),
                        key.height,
                        key.node_key@,
                    ) == BranchRead::Node(node.left@, node.right@),
                    None => branch_read(
                        self.contents(),
                        self.column(),
                        key.height,
                        key.node_key@,
                    ) is Absent,
                },
                Err(_) => true,
            },
    {
        store_get_branch(&self.store, self.col, key)
    }

    /// Write the branch at `key`.
    pub fn insert_branch(&mut self, key: &BranchKey, node: &BranchNode) -> (r: Result<(), SmtError>)
        ensures
            final(self).column() == old(self).column(),
            match r {
                Ok(_) => final(self).contents() == old(self).contents().insert(
                    (old(self).column(), branch_db_key_s(key.height, key.node_key@)),
                    encode_branch_s(node.left@, node.right@),
                ),
                Err(_) => final(self).contents() == old(self).contents(),
            },
    {
        store_insert_branch(&mut self.store, self.col, key, node)
    }

    /// Remove the branch at `key`.
    pub fn remove_branch(&mut self, key: &BranchKey) -> (r: Result<(), SmtError>)
        ensures
            final(self).column() == old(self).column(),
            match r {
                Ok(_) => final(self).contents() == old(self).contents().remove(
                    (old(self).column(), branch_db_key_s(key.height, key.node_key@)),
                ),
                Err(_) => final(self).contents() == old(self).contents(),
            },
    {
        store_remove_branch(&mut self.store, self.col, key)
    }

    /// Write the leaf at `path`.
    pub fn insert_leaf(&mut self, path: &H256, value: &SMTValue) -> (r: Result<(), SmtError>)
        ensures
            final(self).column() == old(self).column(),
            match r {
                Ok(_) => final(self).contents() == old(self).contents().insert(
                    (old(self).column(), leaf_db_key_s(path@)),
                    encode_value_s(*value),
                ),
                Err(_) => final(self).contents() == old(self).contents(),
            },
    {
        store_insert_leaf(&mut self.store, self.col, path, value)
    }

    /// Remove the leaf at `path`.
    pub fn remove_leaf(&mut self, path: &H256) -> (r: Result<(), SmtError>)
        ensures
            final(self).column() == old(self).column(),
            match r {
                Ok(_) => final(self).contents() == old(self).contents().remove(
                    (old(self).column(), leaf_db_key_s(path@)),
                ),
                Err(_) => final(self).contents() == old(self).contents(),
            },
    {
        store_remove_leaf(&mut self.store, self.col, path)
    }

    /// Read the leaf at `path`; stored bytes that do not decode are a
    /// codec error.
    pub fn get_leaf(&self, path: &H256) -> (r: Result<Option<SMTValue>, SmtError>)
        ensures
            match r {
                Ok(opt) => match opt {
                    Some(v) => self.contents().contains_key(
                        (self.column(), leaf_db_key_s(path@)),
                    ) && decode_value_s(
                        self.contents()[(self.column(), leaf_db_key_s(path@))],
                    ) == Some(v),
                    None => !self.contents().contains_key(
                        (self.column(), leaf_db_key_s(path@)),
                    ),
                },
                Err(e) => e matches SmtError::CodecError ==> self.contents().contains_key(
                    (self.column(), leaf_db_key_s(path@)),
                ) && decode_value_s(
                    self.contents()[(self.column(), leaf_db_key_s(path@))],
                ) is None,
            },
    {
        store_get_leaf(&self.store, self.col, path)
    }
}

} // verus!
