use subsmt::{H256, MultiSMTParityStore, SMTKey, SMTValue};

fn open_store(dir: &tempfile::TempDir, cols: u8) -> MultiSMTParityStore {
    MultiSMTParityStore::open(dir.path().to_str().unwrap(), cols).unwrap()
}

#[test]
fn parity_apis_test_apis() {
    let temp_dir = tempfile::tempdir().unwrap();
    let mut multi_tree = open_store(&temp_dir, 2);

    let tree1_col: u8 = 0;
    let tree2_col: u8 = 1;
    multi_tree.clear(tree1_col).unwrap();
    multi_tree.clear(tree2_col).unwrap();
    multi_tree.new_tree_with_store(tree1_col).unwrap();
    multi_tree.new_tree_with_store(tree2_col).unwrap();

    assert_eq!(multi_tree.get_root(tree1_col).unwrap(), H256::zero());
    assert_eq!(multi_tree.get_root(tree2_col).unwrap(), H256::zero());

    let tree1_key1 = SMTKey { address: "1".to_string() };
    let tree1_value1 = SMTValue { nonce: 1, balance: 99 };
    let tree1_key2 = SMTKey { address: "2".to_string() };
    let tree1_value2 = SMTValue { nonce: 2, balance: 97 };

    assert_eq!(multi_tree.get_value(tree1_col, &tree1_key1).unwrap(), SMTValue::zero());
    assert_eq!(multi_tree.get_root(tree1_col).unwrap(), H256::zero());

    multi_tree.update(tree1_col, &tree1_key1, &tree1_value1).unwrap();
    assert_eq!(multi_tree.get_value(tree1_col, &tree1_key1).unwrap(), tree1_value1);

    let proof = multi_tree.get_merkle_proof(tree1_col, &tree1_key1).unwrap();
    assert!(multi_tree.verify(&proof));

    multi_tree.update(tree1_col, &tree1_key1, &SMTValue::zero()).unwrap();
    assert_eq!(multi_tree.get_value(tree1_col, &tree1_key1).unwrap(), SMTValue::zero());

    multi_tree.update(tree1_col, &tree1_key1, &tree1_value1).unwrap();
    let _tree1_root1 = multi_tree.get_root(tree1_col).unwrap();

    let old_proof = multi_tree
        .get_merkle_proof_old(tree1_col, &vec![tree1_key2.clone()])
        .unwrap();
    let next_root = multi_tree
        .get_next_root(&old_proof, &vec![(tree1_key2.clone(), tree1_value2)])
        .unwrap();

    let tree2_root1 = multi_tree.update(tree1_col, &tree1_key2, &tree1_value2).unwrap();
    assert_eq!(next_root, tree2_root1);

    multi_tree.clear(tree1_col).unwrap();
    assert_eq!(multi_tree.get_value(tree1_col, &tree1_key1).unwrap(), SMTValue::zero());

    let mut kvs: Vec<(SMTKey, SMTValue)> = vec![];
    for i in 1..2 {
        kvs.push((
            SMTKey { address: i.to_string() },
            SMTValue { nonce: i as u64, balance: i as u128 },
        ));
    }
    multi_tree.update_all(tree1_col, &kvs).unwrap();
}
