//! 256-bit digests, used both as hash values and as leaf paths.
//!
//! A path is read least-significant bit first: bit `i` of the digest is bit
//! `i % 8` of byte `i / 8`. Bit 0 is the leaf end, bit 255 the root end.

use vstd::prelude::*;

verus! {

broadcast use vstd::array::group_array_axioms;

/// A 256-bit value: a hash, a leaf path, or a bitmap over tree levels.
#[derive(Clone, Copy, Debug, PartialEq, Eq, Hash)]
pub struct H256 {
    pub bytes: [u8; 32],
}

/// The all-zero 32-byte sequence: the empty root, and the zero sentinel hash.
pub open spec fn zero32() -> Seq<u8> {
    Seq::new(32, |i: int| 0u8)
}

/// Bit `i` of a 32-byte value, least-significant first within each byte.
pub open spec fn bit_of(s: Seq<u8>, i: int) -> bool {
    (s[i / 8] >> ((i % 8) as u8)) & 1 == 1
}

/// The value with every bit below `n` cleared and the rest kept.
pub open spec fn clear_below_s(s: Seq<u8>, n: int) -> Seq<u8> {
    Seq::new(
        32,
        |j: int|
            if j < n / 8 {
                0u8
            } else if j > n / 8 {
                s[j]
            } else if n % 8 == 0 {
                s[j]
            } else {
                s[j] & (0xffu8 << ((n % 8) as u8))
            },
    )
}

/// The value with every bit at or above `n` cleared and the rest kept.
pub open spec fn keep_below_s(s: Seq<u8>, n: int) -> Seq<u8> {
    Seq::new(
        32,
        |j: int|
            if j < n / 8 {
                s[j]
            } else if j > n / 8 {
                0u8
            } else if n % 8 == 0 {
                0u8
            } else {
                s[j] & !(0xffu8 << ((n % 8) as u8))
            },
    )
}

/// The path of the parent node at `height`: bits up to and including `height` cleared.
pub open spec fn parent_path_s(s: Seq<u8>, height: int) -> Seq<u8> {
    clear_below_s(s, height + 1)
}

/// `s` with bit `i` set.
pub open spec fn set_bit_s(s: Seq<u8>, i: int) -> Seq<u8> {
    s.update(i / 8, s[i / 8] | (1u8 << ((i % 8) as u8)))
}

/// `s` with bit `i` cleared.
pub open spec fn clear_bit_s(s: Seq<u8>, i: int) -> Seq<u8> {
    s.update(i / 8, s[i / 8] & !(1u8 << ((i % 8) as u8)))
}

impl View for H256 {
    type V = Seq<u8>;

    open spec fn view(&self) -> Seq<u8> {
        self.bytes@
    }
}

impl H256 {
    /// The all-zero digest.
    pub fn zero() -> (r: H256)
        ensures
            r@ == zero32(),
    {
        let bytes = [0u8; 32];
        assert(bytes@ =~= zero32());
        H256 { bytes }
    }

    /// Wrap raw bytes.
    pub fn from_bytes(bytes: [u8; 32]) -> (r: H256)
        ensures
            r@ == bytes@,
    {
        H256 { bytes }
    }

    /// Whether every bit is zero.
    pub fn is_zero(&self) -> (r: bool)
        ensures
            r == (self@ == zero32()),
    {
        let mut i: usize = 0;
        while i < 32
            invariant
                i <= 32,
                forall|j: int| 0 <= j < i ==> self@[j] == 0u8,
            decreases 32 - i,
        {
            if self.bytes[i] != 0 {
                assert(self@[i as int] != zero32()[i as int]);
                return false;
            }
            i = i + 1;
        }
        assert(self@ =~= zero32());
        true
    }

    /// Equality of two digests.
    pub fn equals(&self, other: &H256) -> (r: bool)
        ensures
            r == (self@ == other@),
    {
        let mut i: usize = 0;
        while i < 32
            invariant
                i <= 32,
                forall|j: int| 0 <= j < i ==> self@[j] == other@[j],
            decreases 32 - i,
        {
            if self.bytes[i] != other.bytes[i] {
                return false;
            }
            i = i + 1;
        }
        assert(self@ =~= other@);
        true
    }

    /// Bit `i`, least-significant first.
    pub fn get_bit(&self, i: u8) -> (r: bool)
        ensures
            r == bit_of(self@, i as int),
    {
        let byte_pos = i / 8;
        let bit_pos = i % 8;
        let byte = self.bytes[byte_pos as usize];
        let bit = byte >> bit_pos & 1;
        proof {
            let b = byte;
            let k = bit_pos;
            assert(b >> k & 1 == 1 || b >> k & 1 == 0) by (bit_vector);
        }
        bit != 0
    }

    /// Set bit `i`.
    pub fn set_bit(&mut self, i: u8)
        ensures
            final(self)@ == set_bit_s(old(self)@, i as int),
    {
        let byte_pos = i / 8;
        let bit_pos = i % 8;
        self.bytes[byte_pos as usize] = self.bytes[byte_pos as usize] | (1u8 << bit_pos);
        assert(self@ =~= set_bit_s(old(self)@, i as int));
    }

    /// Clear bit `i`.
    pub fn clear_bit(&mut self, i: u8)
        ensures
            final(self)@ == clear_bit_s(old(self)@, i as int),
    {
        let byte_pos = i / 8;
        let bit_pos = i % 8;
        self.bytes[byte_pos as usize] = self.bytes[byte_pos as usize] & !(1u8 << bit_pos);
        assert(self@ =~= clear_bit_s(old(self)@, i as int));
    }

    /// A path is on the right side of its parent at `height` iff bit `height` is set.
    pub fn is_right(&self, height: u8) -> (r: bool)
        ensures
            r == bit_of(self@, height as int),
    {
        self.get_bit(height)
    }

    /// The value with every bit below `start` cleared.
    pub fn copy_bits(&self, start: u8) -> (r: H256)
        ensures
            r@ == clear_below_s(self@, start as int),
    {
        let mut bytes = [0u8; 32];
        let start_byte = (start / 8) as usize;
        let mut j: usize = start_byte;
        while j < 32
            invariant
                start_byte <= j <= 32,
                start_byte == start as int / 8,
                forall|k: int| 0 <= k < start_byte ==> bytes@[k] == 0u8,
                forall|k: int| start_byte <= k < j ==> bytes@[k] == self@[k],
                forall|k: int| j <= k < 32 ==> bytes@[k] == 0u8,
            decreases 32 - j,
        {
            bytes[j] = self.bytes[j];
            j = j + 1;
        }
        let remain = start % 8;
        if remain > 0 {
            bytes[start_byte] = bytes[start_byte] & (0xffu8 << remain);
        }
        let target = H256 { bytes };
        assert(target@ =~= clear_below_s(self@, start as int));
        target
    }

    /// The path of the parent node at `height`.
    pub fn parent_path(&self, height: u8) -> (r: H256)
        ensures
            r@ == parent_path_s(self@, height as int),
    {
        if height == 255 {
            let z = H256::zero();
            assert(z@ =~= parent_path_s(self@, 255));
            z
        } else {
            self.copy_bits(height + 1)
        }
    }

    /// The value with every bit at or above `n` cleared.
    pub fn low_bits(&self, n: u8) -> (r: H256)
        ensures
            r@ == keep_below_s(self@, n as int),
    {
        let mut bytes = [0u8; 32];
        let cut = (n / 8) as usize;
        let mut j: usize = 0;
        while j < cut
            invariant
                j <= cut,
                cut == n as int / 8,
                forall|k: int| 0 <= k < j ==> bytes@[k] == self@[k],
                forall|k: int| j <= k < 32 ==> bytes@[k] == 0u8,
            decreases cut - j,
        {
            bytes[j] = self.bytes[j];
            j = j + 1;
        }
        let rem = n % 8;
        if rem > 0 {
            bytes[cut] = self.bytes[cut] & !(0xffu8 << rem);
        }
        let r = H256 { bytes };
        assert(r@ =~= keep_below_s(self@, n as int));
        r
    }

    /// The 32 bytes as a vector, for hashing and for storage keys.
    pub fn to_vec(&self) -> (r: Vec<u8>)
        ensures
            r@ == self@,
    {
        let mut v: Vec<u8> = Vec::new();
        let mut i: usize = 0;
        while i < 32
            invariant
                i <= 32,
                v@ == self@.subrange(0, i as int),
            decreases 32 - i,
        {
            v.push(self.bytes[i]);
            assert(v@ =~= self@.subrange(0, i + 1 as int));
            i = i + 1;
        }
        assert(v@ =~= self@);
        v
    }
}

} // verus!
