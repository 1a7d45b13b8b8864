//! The key and value types stored in the trees.
//!
//! A key is an account address; its canonical bytes are a compact length
//! followed by the address in UTF-8, and its hash is the leaf path. A value
//! is a nonce and a balance; its canonical bytes are the two integers
//! little-endian, and its hash is the leaf hash, with the zero value hashing
//! to the zero digest — which is how deletion is represented.

use vstd::prelude::*;
use vstd::utf8::encode_utf8;
use crate::codec::{
    le_bytes, le_val, encode_compact_s, encode_compact, encode_le, decode_le, append_vec,
    lemma_le_val_bound, pow256,
};
use crate::h256::{H256, zero32};
use crate::keccak::{keccak_of, keccak256};

verus! {

/// What a tree stores under a leaf: an account's nonce and balance.
#[derive(Debug, Clone, Copy, PartialEq, Eq, Structural)]
pub struct SMTValue {
    pub nonce: u64,
    pub balance: u128,
}

/// What addresses a leaf: an account address.
#[derive(Debug, Clone, PartialEq, Eq)]
pub struct SMTKey {
    pub address: String,
}

/// The distinguished zero value; storing it removes the leaf.
pub open spec fn zero_value() -> SMTValue {
    SMTValue { nonce: 0, balance: 0 }
}

/// The canonical bytes of a value: nonce, then balance, little-endian.
pub open spec fn encode_value_s(v: SMTValue) -> Seq<u8> {
    le_bytes(v.nonce as nat, 8) + le_bytes(v.balance as nat, 16)
}

/// The value read back from stored bytes: exactly the canonical
/// twenty-four bytes decode, anything else is malformed.
pub open spec fn decode_value_s(s: Seq<u8>) -> Option<SMTValue> {
    if s.len() == 24 {
        Some(
            SMTValue {
                nonce: le_val(s.subrange(0, 8)) as u64,
                balance: le_val(s.subrange(8, 24)) as u128,
            },
        )
    } else {
        None
    }
}

/// The leaf hash of a value: the zero digest for the zero value, otherwise
/// the digest of its canonical bytes.
pub open spec fn value_hash_s(v: SMTValue) -> Seq<u8> {
    if v == zero_value() {
        zero32()
    } else {
        keccak_of(encode_value_s(v))
    }
}

/// The canonical bytes of a key: compact length of the UTF-8 address, then
/// the address bytes.
pub open spec fn encode_key_s(addr: Seq<char>) -> Seq<u8> {
    encode_compact_s(encode_utf8(addr).len() as u64) + encode_utf8(addr)
}

/// The leaf path of a key: the digest of its canonical bytes.
pub open spec fn key_hash_s(addr: Seq<char>) -> Seq<u8> {
    keccak_of(encode_key_s(addr))
}

impl SMTValue {
    /// The zero value.
    pub fn zero() -> (r: SMTValue)
        ensures
            r == zero_value(),
    {
        SMTValue { nonce: 0, balance: 0 }
    }

    /// The canonical bytes.
    pub fn encode(&self) -> (r: Vec<u8>)
        ensures
            r@ == encode_value_s(*self),
    {
        let mut out: Vec<u8> = Vec::new();
        encode_le(self.nonce as u128, 8, &mut out);
        encode_le(self.balance, 16, &mut out);
        assert(out@ =~= encode_value_s(*self));
        out
    }

    /// Read a value back from stored bytes; anything but the canonical
    /// twenty-four bytes is malformed and yields nothing.
    pub fn from_bytes(bytes: &[u8]) -> (r: Option<SMTValue>)
        ensures
            r == decode_value_s(bytes@),
    {
        if bytes.len() == 24 {
            proof {
                reveal_with_fuel(pow256, 17);
                lemma_le_val_bound(bytes@.subrange(0, 8));
                lemma_le_val_bound(bytes@.subrange(8, 24));
                crate::codec::lemma_pow256_increases(8, 16);
            }
            let nonce = decode_le(bytes, 0, 8) as u64;
            let balance = decode_le(bytes, 8, 16);
            Some(SMTValue { nonce, balance })
        } else {
            None
        }
    }

    /// The leaf hash: zero for the zero value, else the digest of the bytes.
    pub fn to_h256(&self) -> (r: H256)
        ensures
            r@ == value_hash_s(*self),
    {
        if self.nonce == 0 && self.balance == 0 {
            H256::zero()
        } else {
            let bytes = self.encode();
            H256::from_bytes(keccak256(bytes.as_slice()))
        }
    }
}

/// Storing a value and reading it back yields the value again.
pub proof fn lemma_value_round_trip(v: SMTValue)
    ensures
        decode_value_s(encode_value_s(v)) == Some(v),
{
    reveal_with_fuel(pow256, 17);
    let s = encode_value_s(v);
    crate::codec::lemma_le_bytes_len(v.nonce as nat, 8);
    crate::codec::lemma_le_bytes_len(v.balance as nat, 16);
    assert(s.subrange(0, 8) =~= le_bytes(v.nonce as nat, 8));
    assert(s.subrange(8, 24) =~= le_bytes(v.balance as nat, 16));
    crate::codec::lemma_le_val_le_bytes(v.nonce as nat, 8);
    crate::codec::lemma_le_val_le_bytes(v.balance as nat, 16);
    vstd::arithmetic::div_mod::lemma_small_mod(v.nonce as nat, pow256(8));
    vstd::arithmetic::div_mod::lemma_small_mod(v.balance as nat, pow256(16));
}

impl SMTKey {
    /// The zero key: the empty address.
    pub fn zero() -> (r: SMTKey)
        ensures
            r.address@ == Seq::<char>::empty(),
    {
        SMTKey { address: String::new() }
    }

    /// The canonical bytes.
    pub fn encode(&self) -> (r: Vec<u8>)
        ensures
            r@ == encode_key_s(self.address@),
    {
        let bytes = self.address.as_str().as_bytes();
        let mut out: Vec<u8> = Vec::new();
        encode_compact(bytes.len() as u64, &mut out);
        let mut payload: Vec<u8> = Vec::new();
        let mut i: usize = 0;
        while i < bytes.len()
            invariant
                i <= bytes@.len(),
                payload@ == bytes@.subrange(0, i as int),
            decreases bytes@.len() - i,
        {
            payload.push(bytes[i]);
            assert(payload@ =~= bytes@.subrange(0, i + 1 as int));
            i = i + 1;
        }
        assert(payload@ =~= bytes@);
        append_vec(&mut out, &payload);
        assert(out@ =~= encode_key_s(self.address@));
        out
    }

    /// The leaf path: the digest of the canonical bytes.
    pub fn to_h256(&self) -> (r: H256)
        ensures
            r@ == key_hash_s(self.address@),
    {
        let bytes = self.encode();
        H256::from_bytes(keccak256(bytes.as_slice()))
    }
}

/// The encoded key recovers its address bytes: the compact length reads back
/// as the payload length, and the payload follows it exactly.
pub proof fn lemma_key_framing(addr: Seq<char>)
    requires
        encode_utf8(addr).len() <= u64::MAX,
    ensures
        ({
            let payload = encode_utf8(addr);
            let whole = encode_key_s(addr);
            let head = encode_compact_s(payload.len() as u64);
            &&& crate::codec::decode_compact_s(whole, 0) == Some(
                (payload.len() as u64, head.len() as int),
            )
            &&& whole.subrange(head.len() as int, whole.len() as int) == payload
        }),
{
    let payload = encode_utf8(addr);
    let head = encode_compact_s(payload.len() as u64);
    crate::codec::lemma_compact_round_trip(payload.len() as u64, payload);
    assert((head + payload).subrange(head.len() as int, (head + payload).len() as int)
        =~= payload);
}

} // verus!
