use sha3::Digest;
use subsmt::{H256, Keccak256Hasher};

fn keccak_reference(data: &[u8]) -> [u8; 32] {
    let mut k = sha3::Keccak256::new();
    k.update(data);
    let out = k.finalize();
    let mut r = [0u8; 32];
    r.copy_from_slice(&out);
    r
}

#[test]
fn test_hasher() {
    let mut hasher = Keccak256Hasher::default();
    hasher.write_h256(&H256::zero());
    let h1 = hasher.finish();
    let h11 = keccak_reference(&[0u8; 32]);
    assert_eq!(h1.bytes, h11);

    let b = H256::from_bytes([1u8; 32]);
    let mut hasher1 = Keccak256Hasher::default();
    hasher1.write_h256(&b);
    let h2 = hasher1.finish();
    let h22 = keccak_reference(&[1u8; 32]);
    assert_eq!(h2.bytes, h22);

    let mut hasher2 = Keccak256Hasher::default();
    hasher2.write_byte(25u8);
    let h3 = hasher2.finish();
    assert_eq!(h3.bytes, keccak_reference(&25u8.to_be_bytes()));
}

#[test]
fn keccak_empty_input_known_digest() {
    // The digest of no bytes at all, pinned to the published value.
    let hasher = Keccak256Hasher::default();
    let h = hasher.finish();
    let expected = hex::decode("c5d2460186f7233c927e7db2dcc703c0e500b653ca82273b7bfad8045d85a470")
        .unwrap();
    assert_eq!(h.bytes.to_vec(), expected);
}
