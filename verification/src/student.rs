//! A small record with the same canonical byte form as the tree's values:
//! a worked example of the codec on a record with a variable-length field.

use vstd::prelude::*;
use crate::codec::{
    le_bytes, le_val, encode_compact_s, decode_compact_s, encode_compact, decode_compact,
    encode_le, decode_le, append_vec, lemma_compact_round_trip, lemma_le_bytes_len,
    lemma_le_val_le_bytes, lemma_le_val_bound, pow256,
};

verus! {

/// A student record: a name, a score, and an id.
#[derive(Debug, Clone, PartialEq, Eq)]
pub struct Student {
    pub name: Vec<u8>,
    pub score: u8,
    pub id: u16,
}

/// The canonical bytes of a record: compact length of the name, the name,
/// the score byte, the id little-endian.
pub open spec fn encode_student_s(name: Seq<u8>, score: u8, id: u16) -> Seq<u8> {
    encode_compact_s(name.len() as u64) + name + seq![score] + le_bytes(id as nat, 2)
}

/// The record read back from bytes, when they are exactly one record.
pub open spec fn decode_student_s(s: Seq<u8>) -> Option<(Seq<u8>, u8, u16)> {
    match decode_compact_s(s, 0) {
        None => None,
        Some((n, at)) => if at + n + 3 == s.len() {
            Some(
                (
                    s.subrange(at, at + n),
                    s[at + n],
                    le_val(s.subrange(at + n + 1, at + n + 3)) as u16,
                ),
            )
        } else {
            None
        },
    }
}

impl Student {
    /// The canonical bytes.
    pub fn encode(&self) -> (r: Vec<u8>)
        ensures
            r@ == encode_student_s(self.name@, self.score, self.id),
    {
        let mut out: Vec<u8> = Vec::new();
        encode_compact(self.name.len() as u64, &mut out);
        append_vec(&mut out, &self.name);
        out.push(self.score);
        encode_le(self.id as u128, 2, &mut out);
        assert(out@ =~= encode_student_s(self.name@, self.score, self.id));
        out
    }

    /// Read a record back from bytes; anything else yields nothing.
    pub fn decode(bytes: &[u8]) -> (r: Option<Student>)
        ensures
            match r {
                Some(st) => decode_student_s(bytes@) == Some((st.name@, st.score, st.id)),
                None => decode_student_s(bytes@) is None,
            },
    {
        let blen = bytes.len();
        let (n64, at) = match decode_compact(bytes, 0) {
            Some(p) => p,
            None => {
                return None;
            },
        };
        if n64 > blen as u64 {
            return None;
        }
        let n = n64 as usize;
        if blen < 3 || at > blen - 3 || n != blen - 3 - at {
            return None;
        }
        let mut name: Vec<u8> = Vec::new();
        let mut i: usize = 0;
        while i < n
            invariant
                i <= n,
                blen == bytes@.len(),
                at + n + 3 == blen,
                name@ == bytes@.subrange(at as int, at + i),
            decreases n - i,
        {
            name.push(bytes[at + i]);
            assert(name@ =~= bytes@.subrange(at as int, at + i + 1));
            i = i + 1;
        }
        let score = bytes[at + n];
        proof {
            reveal_with_fuel(pow256, 3);
            lemma_le_val_bound(bytes@.subrange(at + n + 1, at + n + 3));
        }
        let id = decode_le(bytes, at + n + 1, 2) as u16;
        Some(Student { name, score, id })
    }
}

/// Reading back an encoded record yields the record.
pub proof fn lemma_student_round_trip(name: Seq<u8>, score: u8, id: u16)
    requires
        name.len() <= u64::MAX,
    ensures
        decode_student_s(encode_student_s(name, score, id)) == Some((name, score, id)),
{
    reveal_with_fuel(pow256, 3);
    let s = encode_student_s(name, score, id);
    let head = encode_compact_s(name.len() as u64);
    lemma_compact_round_trip(name.len() as u64, name + seq![score] + le_bytes(id as nat, 2));
    assert(head + (name + seq![score] + le_bytes(id as nat, 2)) =~= s);
    lemma_le_bytes_len(id as nat, 2);
    let at = head.len() as int;
    let n = name.len() as int;
    assert(s.subrange(at, at + n) =~= name);
    assert(s[at + n] == score);
    assert(s.subrange(at + n + 1, at + n + 3) =~= le_bytes(id as nat, 2));
    lemma_le_val_le_bytes(id as nat, 2);
    vstd::arithmetic::div_mod::lemma_small_mod(id as nat, pow256(2));
}

} // verus!
