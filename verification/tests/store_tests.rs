use subsmt::db::ParityDb;
use subsmt::merge::{BranchKey, BranchNode, MergeValue};
use subsmt::store::SMTParityStore;
use subsmt::{H256, SMTValue};

#[test]
fn parity_store_test_store() {
    let temp_dir = tempfile::tempdir().unwrap();
    let db = ParityDb::open_or_create(temp_dir.path().to_str().unwrap(), 1).unwrap();
    let mut store = SMTParityStore::new(db, 0);

    let leaf1_key = H256::from_bytes([1u8; 32]);
    let leaf1 = SMTValue { nonce: 1, balance: 99 };
    assert_eq!(store.get_leaf(&leaf1_key).unwrap(), None);
    store.insert_leaf(&leaf1_key, &leaf1).unwrap();
    assert_eq!(store.get_leaf(&leaf1_key).unwrap(), Some(leaf1));
    store.remove_leaf(&leaf1_key).unwrap();
    assert_eq!(store.get_leaf(&leaf1_key).unwrap(), None);

    let node1_key = BranchKey::new(100, H256::from_bytes([2u8; 32]));
    let node1 = BranchNode {
        left: MergeValue::from_h256(H256::from_bytes([3u8; 32])),
        right: MergeValue::from_h256(H256::from_bytes([4u8; 32])),
    };
    assert_eq!(store.get_branch(&node1_key).unwrap(), None);
    store.insert_branch(&node1_key, &node1).unwrap();
    assert_eq!(store.get_branch(&node1_key).unwrap(), Some(node1));
    store.remove_branch(&node1_key).unwrap();
    assert_eq!(store.get_branch(&node1_key).unwrap(), None);
}

#[test]
fn malformed_leaf_bytes_surface_codec_error() {
    let temp_dir = tempfile::tempdir().unwrap();
    let mut db = ParityDb::open_or_create(temp_dir.path().to_str().unwrap(), 1).unwrap();
    // Plant bytes under a leaf key that are not a canonical value encoding.
    let leaf_key = H256::from_bytes([9u8; 32]);
    db.insert(0, &leaf_key.to_vec(), &vec![1u8, 2, 3]).unwrap();
    let store = SMTParityStore::new(db, 0);
    let r = store.get_leaf(&leaf_key);
    assert!(matches!(r, Err(subsmt::error::SmtError::CodecError)));

    // The canonical twenty-four bytes still read back as the value.
    let temp_dir2 = tempfile::tempdir().unwrap();
    let mut db2 = ParityDb::open_or_create(temp_dir2.path().to_str().unwrap(), 1).unwrap();
    let good = SMTValue { nonce: 5, balance: 500 };
    db2.insert(0, &leaf_key.to_vec(), &good.encode()).unwrap();
    let store2 = SMTParityStore::new(db2, 0);
    assert_eq!(store2.get_leaf(&leaf_key).unwrap(), Some(good));
}
