use subsmt::contract::{Smt, SmtVerifyError};
use subsmt::{MultiSMTParityStore, SMTKey, SMTValue};

#[test]
fn contract_accepts_good_proofs_and_rejects_absent_keys() {
    let dir = tempfile::tempdir().unwrap();
    let mut store = MultiSMTParityStore::open(dir.path().to_str().unwrap(), 1).unwrap();
    let contract = Smt::new();

    let absent = SMTKey { address: "0".to_string() };
    for i in 1..=5u32 {
        let k = SMTKey { address: i.to_string() };
        let v = SMTValue { nonce: i as u64, balance: 100 };
        store.update(0, &k, &v).unwrap();
    }

    // A proof of a key that was never written carries the zero value hash
    // and is turned away.
    let p0 = store.get_merkle_proof(0, &absent).unwrap();
    assert!(matches!(
        contract.smt_verify(&p0),
        Err(SmtVerifyError::SMTVerifyFaild)
    ));

    for i in 1..=5u32 {
        let k = SMTKey { address: i.to_string() };
        let p = store.get_merkle_proof(0, &k).unwrap();
        assert!(contract.smt_verify(&p).is_ok());
    }

    // A proof replayed against a root it does not belong to is turned away.
    let mut p = store.get_merkle_proof(0, &SMTKey { address: "2".to_string() }).unwrap();
    store
        .update(0, &SMTKey { address: "6".to_string() }, &SMTValue { nonce: 6, balance: 100 })
        .unwrap();
    p.root = store.get_root(0).unwrap();
    assert!(matches!(
        contract.smt_verify(&p),
        Err(SmtVerifyError::SMTVerifyFaild)
    ));
}
