//! Request bodies of the transport surface, as plain data.
//!
//! The transport layer mirrors these with its own serialisable copies; the
//! library only ever sees the plain fields.

use vstd::prelude::*;

verus! {

/// Set one key to one value in a named tree.
pub struct ReqUpdate<K, V> {
    pub prefix: String,
    pub key: K,
    pub value: V,
}

/// Look one key up in a named tree.
pub struct ReqByKey<K> {
    pub prefix: String,
    pub key: K,
}

/// Preview the root after writing the given pairs to a named tree.
pub struct ReqNextRoot<K, V> {
    pub prefix: String,
    pub keys: Vec<(K, V)>,
}

/// Ask for the root of a named tree.
pub struct ReqRoot {
    pub prefix: String,
}

/// Carry one pair into a named tree.
pub struct ReqByKVs<P> {
    pub prefix: String,
    pub kv: P,
}

/// A key with its value.
pub struct KVPair<K, V> {
    pub key: K,
    pub value: V,
}

/// Name a tree alone.
pub struct ReqByPrefix {
    pub prefix: String,
}

} // verus!
