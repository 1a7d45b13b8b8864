//! The physical store: a column-partitioned key-value database on disk.
//!
//! The database itself is an outside engine. Its handle is held behind a
//! small trusted boundary whose contract speaks of one thing: the map from
//! (column, byte key) to stored bytes, named `db_contents`. Everything above
//! — column checks, the store adapter, the trees — is verified against that
//! map.

use vstd::prelude::*;

verus! {

#[verifier::external_type_specification]
#[verifier::external_body]
pub struct ExParityDbError(parity_db::Error);

/// A handle to the on-disk database, kept open between operations.
#[verifier::external_body]
pub struct DbHandle {
    db: Option<parity_db::Db>,
    num_columns: u8,
}

/// What the database holds: the stored bytes for each column and byte key.
pub uninterp spec fn db_contents(db: DbHandle) -> Map<(u8, Seq<u8>), Seq<u8>>;

/// How many columns the database was opened with.
pub uninterp spec fn db_column_count(db: DbHandle) -> u8;

/// Relies on parity_db::Db::open_or_create: opens the database at `path`
/// with `num_columns` ordered columns, creating it when absent. What it
/// holds is whatever the files on disk hold, so nothing is claimed of the
/// contents.
#[verifier::external_body]
fn raw_open(path: &str, num_columns: u8) -> (r: Result<DbHandle, parity_db::Error>)
    ensures
        r matches Ok(db) ==> db_column_count(db) == num_columns,
{
    let path_buf = std::path::PathBuf::from(path);
    let mut options = parity_db::Options::with_columns(&path_buf, num_columns);
    for c in options.columns.iter_mut() {
        c.btree_index = true;
    }
    let db = parity_db::Db::open_or_create(&options)?;
    Ok(DbHandle { db: Some(db), num_columns })
}

/// Relies on parity_db::Db::commit: a one-key set transaction. On success
/// later reads in this process and after restart see the new bytes; on an
/// error the change set is validated first and nothing is applied.
#[verifier::external_body]
fn raw_insert(db: &mut DbHandle, col: u8, key: &Vec<u8>, value: &Vec<u8>) -> (r: Result<
    (),
    parity_db::Error,
>)
    requires
        col < db_column_count(*old(db)),
    ensures
        db_column_count(*final(db)) == db_column_count(*old(db)),
        match r {
            Ok(_) => db_contents(*final(db)) == db_contents(*old(db)).insert(
                (col, key@),
                value@,
            ),
            Err(_) => db_contents(*final(db)) == db_contents(*old(db)),
        },
{
    match &db.db {
        Some(d) => {
            d.commit(vec![(col, key.clone(), Some(value.clone()))])?;
            Ok(())
        },
        None => Err(parity_db::Error::DatabaseNotFound),
    }
}

/// Relies on parity_db::Db::commit: a one-key delete transaction; the same
/// reading as for `raw_insert`.
#[verifier::external_body]
fn raw_delete(db: &mut DbHandle, col: u8, key: &Vec<u8>) -> (r: Result<(), parity_db::Error>)
    requires
        col < db_column_count(*old(db)),
    ensures
        db_column_count(*final(db)) == db_column_count(*old(db)),
        match r {
            Ok(_) => db_contents(*final(db)) == db_contents(*old(db)).remove((col, key@)),
            Err(_) => db_contents(*final(db)) == db_contents(*old(db)),
        },
{
    match &db.db {
        Some(d) => {
            d.commit(vec![(col, key.clone(), None::<Vec<u8>>)])?;
            Ok(())
        },
        None => Err(parity_db::Error::DatabaseNotFound),
    }
}

/// Relies on parity_db::Db::get: returns the bytes stored under the key in
/// the column, or nothing when the key is absent; the database is unchanged.
#[verifier::external_body]
fn raw_get(db: &DbHandle, col: u8, key: &Vec<u8>) -> (r: Result<Option<Vec<u8>>, parity_db::Error>)
    requires
        col < db_column_count(*db),
    ensures
        match r {
            Ok(Some(v)) => db_contents(*db).contains_key((col, key@)) && v@ == db_contents(
                *db,
            )[(col, key@)],
            Ok(None) => !db_contents(*db).contains_key((col, key@)),
            Err(_) => true,
        },
{
    match &db.db {
        Some(d) => Ok(d.get(col, key.as_slice())?),
        None => Err(parity_db::Error::DatabaseNotFound),
    }
}

/// Relies on parity_db::Db::iter and parity_db::Db::commit: every key of
/// the ordered column is walked and the whole set is deleted in one
/// transaction. On success the column is empty and the others are
/// untouched; on an error only the column count is claimed.
#[verifier::external_body]
fn raw_clear_column(db: &mut DbHandle, col: u8) -> (r: Result<(), parity_db::Error>)
    requires
        col < db_column_count(*old(db)),
    ensures
        db_column_count(*final(db)) == db_column_count(*old(db)),
        r matches Ok(_) ==> db_contents(*final(db)) == db_contents(*old(db)).remove_keys(
            Set::new(|k: (u8, Seq<u8>)| k.0 == col),
        ),
{
    let d = match &db.db {
        Some(d) => d,
        None => return Err(parity_db::Error::DatabaseNotFound),
    };
    let mut iter = d.iter(col)?;
    iter.seek_to_first()?;
    let mut batch: Vec<(u8, Vec<u8>, Option<Vec<u8>>)> = Vec::new();
    while let Some((key, _value)) = iter.next()? {
        batch.push((col, key, None));
    }
    drop(iter);
    d.commit(batch)?;
    Ok(())
}

/// Relies on the handle's own record of how many columns the database was
/// opened with, the same number `parity_db::Db::num_columns` reports.
#[verifier::external_body]
fn raw_columns(db: &DbHandle) -> (r: u8)
    ensures
        r == db_column_count(*db),
{
    db.num_columns
}

/// Why a store operation failed: the engine reported an error, or the
/// column id is out of range.
#[derive(Debug)]
pub enum StoreError {
    DbError(parity_db::Error),
    InvalidColumnId,
}

impl StoreError {
    /// A short description of the failure.
    pub fn message(&self) -> &'static str {
        match self {
            StoreError::DbError(_) => "Database error",
            StoreError::InvalidColumnId => "Invalid column ID",
        }
    }
}

/// The database, every operation checked against its column count.
pub struct ParityDb {
    db: DbHandle,
}

impl ParityDb {
    /// The map from (column, byte key) to stored bytes.
    pub closed spec fn contents(&self) -> Map<(u8, Seq<u8>), Seq<u8>> {
        db_contents(self.db)
    }

    /// How many columns the database has.
    pub closed spec fn columns(&self) -> u8 {
        db_column_count(self.db)
    }

    /// Open the database at `path`, creating it when absent.
    pub fn open_or_create(path: &str, num_columns: u8) -> (r: Result<ParityDb, StoreError>)
        ensures
            r matches Ok(db) ==> db.columns() == num_columns,
    {
        match raw_open(path, num_columns) {
            Ok(handle) => Ok(ParityDb { db: handle }),
            Err(e) => Err(StoreError::DbError(e)),
        }
    }

    /// Open the database at `path`; the same as `open_or_create`.
    pub fn new(path: &str, num_columns: u8) -> (r: Result<ParityDb, StoreError>)
        ensures
            r matches Ok(db) ==> db.columns() == num_columns,
    {
        ParityDb::open_or_create(path, num_columns)
    }

    /// Reject a column id that the database was not opened with.
    fn check_column(&self, column: u8) -> (r: Result<(), StoreError>)
        ensures
            r matches Ok(_) <==> column < self.columns(),
            r matches Err(e) ==> e matches StoreError::InvalidColumnId,
    {
        if column >= raw_columns(&self.db) {
            return Err(StoreError::InvalidColumnId);
        }
        Ok(())
    }

    /// Store `value` under `key` in `column`.
    pub fn insert(&mut self, column: u8, key: &Vec<u8>, value: &Vec<u8>) -> (r: Result<
        (),
        StoreError,
    >)
        ensures
            final(self).columns() == old(self).columns(),
            match r {
                Ok(_) => column < old(self).columns() && final(self).contents() == old(
                    self,
                ).contents().insert((column, key@), value@),
                Err(e) => final(self).contents() == old(self).contents() && (
                e matches StoreError::InvalidColumnId <==> column >= old(self).columns()),
            },
    {
        self.check_column(column)?;
        match raw_insert(&mut self.db, column, key, value) {
            Ok(_) => Ok(()),
            Err(e) => Err(StoreError::DbError(e)),
        }
    }

    /// Remove whatever is stored under `key` in `column`.
    pub fn delete(&mut self, column: u8, key: &Vec<u8>) -> (r: Result<(), StoreError>)
        ensures
            final(self).columns() == old(self).columns(),
            match r {
                Ok(_) => column < old(self).columns() && final(self).contents() == old(
                    self,
                ).contents().remove((column, key@)),
                Err(e) => final(self).contents() == old(self).contents() && (
                e matches StoreError::InvalidColumnId <==> column >= old(self).columns()),
            },
    {
        self.check_column(column)?;
        match raw_delete(&mut self.db, column, key) {
            Ok(_) => Ok(()),
            Err(e) => Err(StoreError::DbError(e)),
        }
    }

    /// Read what is stored under `key` in `column`.
    pub fn get(&self, column: u8, key: &Vec<u8>) -> (r: Result<Option<Vec<u8>>, StoreError>)
        ensures
            match r {
                Ok(Some(v)) => column < self.columns() && self.contents().contains_key(
                    (column, key@),
                ) && v@ == self.contents()[(column, key@)],
                Ok(None) => column < self.columns() && !self.contents().contains_key(
                    (column, key@),
                ),
                Err(e) => e matches StoreError::InvalidColumnId <==> column >= self.columns(),
            },
    {
        self.check_column(column)?;
        match raw_get(&self.db, column, key) {
            Ok(v) => Ok(v),
            Err(e) => Err(StoreError::DbError(e)),
        }
    }

    /// Empty `column`, leaving every other column as it is.
    pub fn clear_column(&mut self, column: u8) -> (r: Result<(), StoreError>)
        ensures
            final(self).columns() == old(self).columns(),
            match r {
                Ok(_) => column < old(self).columns() && final(self).contents() == old(
                    self,
                ).contents().remove_keys(Set::new(|k: (u8, Seq<u8>)| k.0 == column)),
                Err(e) => e matches StoreError::InvalidColumnId <==> column >= old(
                    self,
                ).columns(),
            },
            match r {
                Err(StoreError::InvalidColumnId) => final(self).contents() == old(
                    self,
                ).contents(),
                _ => true,
            },
    {
        self.check_column(column)?;
        match raw_clear_column(&mut self.db, column) {
            Ok(_) => Ok(()),
            Err(e) => Err(StoreError::DbError(e)),
        }
    }
}

} // verus!
