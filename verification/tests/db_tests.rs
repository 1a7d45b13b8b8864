use subsmt::db::ParityDb;

fn path_str(dir: &tempfile::TempDir) -> String {
    dir.path().to_str().unwrap().to_string()
}

#[test]
fn parity_db_test_basic_operations() {
    let temp_dir = tempfile::tempdir().unwrap();
    let mut store = ParityDb::new(&path_str(&temp_dir), 2).unwrap();

    let key = b"test_key".to_vec();
    let value = b"test_value".to_vec();
    store.insert(0, &key, &value).unwrap();

    let retrieved = store.get(0, &key).unwrap();
    assert_eq!(retrieved, Some(value.clone()));

    store.delete(0, &key).unwrap();
    let retrieved = store.get(0, &key).unwrap();
    assert_eq!(retrieved, None);
}

#[test]
fn parity_db_test_reset_column() {
    let temp_dir = tempfile::tempdir().unwrap();
    let mut store = ParityDb::new(&path_str(&temp_dir), 2).unwrap();

    store.insert(0, &b"key1".to_vec(), &b"value1".to_vec()).unwrap();
    store.insert(1, &b"key2".to_vec(), &b"value2".to_vec()).unwrap();

    store.clear_column(0).unwrap();

    assert_eq!(store.get(0, &b"key1".to_vec()).unwrap(), None);
    assert_eq!(store.get(1, &b"key2".to_vec()).unwrap(), Some(b"value2".to_vec()));
}

#[test]
fn parity_db_test_clear_column() {
    let temp_dir = tempfile::tempdir().unwrap();
    let mut store = ParityDb::new(&path_str(&temp_dir), 2).unwrap();

    for i in 0..100 {
        let key = format!("key{}", i).into_bytes();
        let value = format!("value{}", i).into_bytes();
        store.insert(0, &key, &value).unwrap();
        store.insert(1, &key, &value).unwrap();
    }

    store.clear_column(0).unwrap();

    for i in 0..100 {
        let key = format!("key{}", i).into_bytes();
        assert_eq!(store.get(0, &key).unwrap(), None);
        assert!(store.get(1, &key).unwrap().is_some());
    }
}

#[test]
fn test_column_bounds() {
    let temp_dir = tempfile::tempdir().unwrap();
    let mut store = ParityDb::new(&path_str(&temp_dir), 2).unwrap();

    let result = store.insert(2, &b"key".to_vec(), &b"value".to_vec());
    assert!(result.is_err());

    let result = store.get(2, &b"key".to_vec());
    assert!(result.is_err());

    let result = store.delete(2, &b"key".to_vec());
    assert!(result.is_err());
}
