//! Keccak-256 hashing.
//!
//! The digest itself is computed by an outside crate; this module gives its
//! result a name, `keccak_of`, and builds the streaming hasher that the tree
//! uses on top of it.

use vstd::prelude::*;

verus! {

/// Byte `i` of the Keccak-256 digest of a byte sequence.
///
/// The digest depends on the input bytes alone; its definition is not
/// written out here, so nothing about concrete digest values can be proved,
/// only that equal inputs hash alike.
pub uninterp spec fn keccak_byte(data: Seq<u8>, i: int) -> u8;

/// The Keccak-256 digest of a byte sequence: 32 bytes.
pub open spec fn keccak_of(data: Seq<u8>) -> Seq<u8> {
    Seq::new(32, |i: int| keccak_byte(data, i))
}

/// Relies on sha3::Keccak256 (through the digest traits): the Keccak-256
/// digest of the input, 32 bytes, a function of the input bytes alone.
#[verifier::external_body]
pub fn keccak256(data: &[u8]) -> (r: [u8; 32])
    ensures
        forall|i: int| 0 <= i < 32 ==> r@[i] == keccak_byte(data@, i),
        r@ == keccak_of(data@),
{
    let mut hasher = <sha3::Keccak256 as sha3::Digest>::new();
    sha3::Digest::update(&mut hasher, data);
    let out = sha3::Digest::finalize(hasher);
    let mut r = [0u8; 32];
    r.copy_from_slice(&out);
    r
}

/// A streaming Keccak-256 hasher over 32-byte digests and single bytes.
///
/// Bytes are gathered in order and hashed once at `finish`, so the result is
/// `keccak_of` of everything written.
pub struct Keccak256Hasher {
    pub buf: Vec<u8>,
}

impl View for Keccak256Hasher {
    type V = Seq<u8>;

    open spec fn view(&self) -> Seq<u8> {
        self.buf@
    }
}

impl Default for Keccak256Hasher {
    /// A hasher with nothing written yet.
    fn default() -> (r: Self)
        ensures
            r@ == Seq::<u8>::empty(),
    {
        Keccak256Hasher { buf: Vec::new() }
    }
}

impl Keccak256Hasher {
    /// Feed a 32-byte digest into the stream.
    pub fn write_h256(&mut self, h: &crate::h256::H256)
        ensures
            final(self)@ == old(self)@ + h@,
    {
        let mut i: usize = 0;
        while i < 32
            invariant
                i <= 32,
                self@ == old(self)@ + h@.subrange(0, i as int),
            decreases 32 - i,
        {
            self.buf.push(h.bytes[i]);
            assert(self@ =~= old(self)@ + h@.subrange(0, i + 1 as int));
            i = i + 1;
        }
        assert(self@ =~= old(self)@ + h@);
    }

    /// Feed one byte into the stream.
    pub fn write_byte(&mut self, b: u8)
        ensures
            final(self)@ == old(self)@ + seq![b],
    {
        self.buf.push(b);
        assert(self@ =~= old(self)@ + seq![b]);
    }

    /// Hash everything written so far.
    pub fn finish(self) -> (r: crate::h256::H256)
        ensures
            r@ == keccak_of(self@),
    {
        let digest = keccak256(self.buf.as_slice());
        crate::h256::H256::from_bytes(digest)
    }
}

} // verus!
