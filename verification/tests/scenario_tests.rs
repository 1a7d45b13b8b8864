use subsmt::error::SmtError;
use subsmt::{H256, MultiSMTParityStore, SMTKey, SMTValue};

fn open_store(dir: &tempfile::TempDir, cols: u8) -> MultiSMTParityStore {
    MultiSMTParityStore::open(dir.path().to_str().unwrap(), cols).unwrap()
}

fn key(s: &str) -> SMTKey {
    SMTKey { address: s.to_string() }
}

#[test]
fn update_remove_restore_recovers_root() {
    let dir = tempfile::tempdir().unwrap();
    let mut store = open_store(&dir, 1);
    let k = key("1");
    let v = SMTValue { nonce: 1, balance: 99 };

    let r1 = store.update(0, &k, &v).unwrap();
    assert_ne!(r1, H256::zero());

    let r_removed = store.update(0, &k, &SMTValue::zero()).unwrap();
    assert_eq!(r_removed, H256::zero());
    assert_eq!(store.get_root(0).unwrap(), H256::zero());

    let r_again = store.update(0, &k, &v).unwrap();
    assert_eq!(r_again, r1);
}

#[test]
fn two_namespaces_same_content_same_root() {
    let dir = tempfile::tempdir().unwrap();
    let mut store = open_store(&dir, 2);
    let k = key("acct");
    let v = SMTValue { nonce: 3, balance: 1000 };

    store.update(0, &k, &v).unwrap();
    store.update(1, &k, &v).unwrap();
    assert_eq!(store.get_root(0).unwrap(), store.get_root(1).unwrap());

    store.clear(0).unwrap();
    assert_eq!(store.get_root(0).unwrap(), H256::zero());
    assert_ne!(store.get_root(1).unwrap(), H256::zero());
    assert_eq!(store.get_value(1, &k).unwrap(), v);
}

#[test]
fn insertion_order_does_not_change_root() {
    let dir = tempfile::tempdir().unwrap();
    let mut store = open_store(&dir, 2);
    let pairs: Vec<(SMTKey, SMTValue)> = (1..=5)
        .map(|i| (key(&i.to_string()), SMTValue { nonce: i as u64, balance: i as u128 }))
        .collect();

    for kv in pairs.iter() {
        store.update(0, &kv.0, &kv.1).unwrap();
    }
    for kv in pairs.iter().rev() {
        store.update(1, &kv.0, &kv.1).unwrap();
    }
    assert_eq!(store.get_root(0).unwrap(), store.get_root(1).unwrap());
}

#[test]
fn proofs_of_present_keys_verify() {
    let dir = tempfile::tempdir().unwrap();
    let mut store = open_store(&dir, 1);
    let n: u8 = 10;
    for i in 1..=n {
        let k = key(&i.to_string());
        let v = SMTValue { nonce: i as u64, balance: i as u128 };
        store.update(0, &k, &v).unwrap();
    }
    for i in 1..=n {
        let k = key(&i.to_string());
        let p = store.get_merkle_proof(0, &k).unwrap();
        assert!(store.verify(&p));
    }
}

#[test]
fn absent_key_proof_does_not_verify() {
    let dir = tempfile::tempdir().unwrap();
    let mut store = open_store(&dir, 1);
    store.update(0, &key("present"), &SMTValue { nonce: 1, balance: 1 }).unwrap();
    let p = store.get_merkle_proof(0, &key("absent")).unwrap();
    assert_eq!(p.value, SMTValue::zero());
    assert!(!store.verify(&p));
}

#[test]
fn tampered_bitmap_fails_verification() {
    let dir = tempfile::tempdir().unwrap();
    let mut store = open_store(&dir, 1);
    for i in 1..=8 {
        let k = key(&i.to_string());
        store.update(0, &k, &SMTValue { nonce: i as u64, balance: i as u128 }).unwrap();
    }
    let mut p = store.get_merkle_proof(0, &key("3")).unwrap();
    assert!(store.verify(&p));
    assert!(!p.siblings.is_empty());

    let mut lowest: Option<u8> = None;
    for i in 0..=255u8 {
        if p.leave_bitmap.get_bit(i) {
            lowest = Some(i);
            break;
        }
    }
    let bit = lowest.expect("a multi-key proof carries at least one genuine sibling");
    p.leave_bitmap.clear_bit(bit);
    assert!(!store.verify(&p));
}

#[test]
fn compiled_proof_predicts_next_root() {
    let dir = tempfile::tempdir().unwrap();
    let mut store = open_store(&dir, 1);
    store.update(0, &key("a"), &SMTValue { nonce: 1, balance: 10 }).unwrap();
    store.update(0, &key("b"), &SMTValue { nonce: 2, balance: 20 }).unwrap();

    let k = key("c");
    let v_next = SMTValue { nonce: 3, balance: 30 };
    let compiled = store.get_merkle_proof_old(0, &vec![k.clone()]).unwrap();
    let predicted = store.get_next_root(&compiled, &vec![(k.clone(), v_next)]).unwrap();
    let actual = store.update(0, &k, &v_next).unwrap();
    assert_eq!(predicted, actual);
}

#[test]
fn single_leaf_proof_has_no_siblings() {
    let dir = tempfile::tempdir().unwrap();
    let mut store = open_store(&dir, 1);
    store.update(0, &key("x"), &SMTValue { nonce: 1, balance: 1 }).unwrap();
    let p = store.get_merkle_proof(0, &key("x")).unwrap();
    assert_eq!(p.siblings.len(), 0);
    assert!(store.verify(&p));
}

#[test]
fn persistence_across_reopen() {
    // The store layer survives closing and reopening the database.
    let dir = tempfile::tempdir().unwrap();
    let p = dir.path().to_str().unwrap().to_string();
    {
        let mut db = subsmt::db::ParityDb::open_or_create(&p, 2).unwrap();
        db.insert(0, &b"kept".to_vec(), &b"value".to_vec()).unwrap();
    }
    let db = subsmt::db::ParityDb::open_or_create(&p, 2).unwrap();
    assert_eq!(db.get(0, &b"kept".to_vec()).unwrap(), Some(b"value".to_vec()));
    assert_eq!(db.get(1, &b"kept".to_vec()).unwrap(), None);
}

#[test]
fn root_rebuilt_from_store_alone() {
    // A tree handle holds no state: a fresh handle over the same store
    // reports the same root and values.
    let dir = tempfile::tempdir().unwrap();
    let mut store = open_store(&dir, 1);
    let k = key("kept");
    let v = SMTValue { nonce: 9, balance: 900 };
    let root = store.update(0, &k, &v).unwrap();
    let tree = store.new_tree_with_store(0).unwrap();
    assert_eq!(*tree.root(), root);
    assert_eq!(store.get_value(0, &k).unwrap(), v);
}

#[test]
fn boundary_paths_all_zero_and_all_one() {
    let dir = tempfile::tempdir().unwrap();
    let mut store = open_store(&dir, 1);
    // Drive the tree through two leaves whose paths differ in the top bit,
    // so both halves of the root are populated.
    let mut found: Vec<SMTKey> = Vec::new();
    let mut i: u32 = 0;
    while found.len() < 2 && i < 10000 {
        let k = key(&format!("probe{}", i));
        let top_bit = k.to_h256().get_bit(255);
        if (found.len() == 0 && !top_bit) || (found.len() == 1 && top_bit) {
            found.push(k);
        }
        i += 1;
    }
    assert_eq!(found.len(), 2);
    store.update(0, &found[0], &SMTValue { nonce: 1, balance: 1 }).unwrap();
    store.update(0, &found[1], &SMTValue { nonce: 2, balance: 2 }).unwrap();
    for k in found.iter() {
        let p = store.get_merkle_proof(0, k).unwrap();
        assert!(store.verify(&p));
    }
}

#[test]
fn error_variants_surface() {
    let dir = tempfile::tempdir().unwrap();
    let mut store = open_store(&dir, 1);

    let e = store.get_root(7).unwrap_err();
    assert!(matches!(e, SmtError::Store(subsmt::db::StoreError::InvalidColumnId)));
    let e = store.update(7, &key("k"), &SMTValue { nonce: 1, balance: 1 }).unwrap_err();
    assert!(matches!(e, SmtError::Store(subsmt::db::StoreError::InvalidColumnId)));

    let e = store.get_merkle_proof_old(0, &vec![]).unwrap_err();
    assert!(matches!(e, SmtError::EmptyKeys));
    let e = store.get_merkle_proof_old(0, &vec![key("a"), key("b")]).unwrap_err();
    assert!(matches!(e, SmtError::IncorrectNumberOfLeaves { .. }));

    // A compiled proof with an unknown op code.
    let e = store.get_next_root(&vec![0xEEu8], &vec![]).unwrap_err();
    assert!(matches!(e, SmtError::InvalidCode(0xEE)));
    // One that leaves nothing on the stack.
    let e = store.get_next_root(&vec![], &vec![]).unwrap_err();
    assert!(matches!(e, SmtError::CorruptedStack));
    // One that pushes a leaf it was never given.
    let e = store.get_next_root(&vec![0x4Cu8], &vec![]).unwrap_err();
    assert!(matches!(e, SmtError::CorruptedStack));
    // One that stops below the root.
    let k = key("k");
    let v = SMTValue { nonce: 1, balance: 1 };
    let e = store
        .get_next_root(&vec![0x4Cu8], &vec![(k, v)])
        .unwrap_err();
    assert!(matches!(e, SmtError::CorruptedProof));
}
