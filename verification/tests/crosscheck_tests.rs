use sha3::Digest;
use sparse_merkle_tree::default_store::DefaultStore;
use sparse_merkle_tree::traits::Hasher;
use sparse_merkle_tree::SparseMerkleTree;
use subsmt::{MultiSMTParityStore, SMTKey, SMTValue};

struct RefKeccak(sha3::Keccak256);

impl Default for RefKeccak {
    fn default() -> Self {
        RefKeccak(sha3::Keccak256::new())
    }
}

impl Hasher for RefKeccak {
    fn write_h256(&mut self, h: &sparse_merkle_tree::H256) {
        self.0.update(h.as_slice());
    }
    fn write_byte(&mut self, b: u8) {
        self.0.update(&[b][..]);
    }
    fn finish(self) -> sparse_merkle_tree::H256 {
        let out = self.0.finalize();
        let mut r = [0u8; 32];
        r.copy_from_slice(&out);
        r.into()
    }
}

type RefSMT = SparseMerkleTree<
    RefKeccak,
    sparse_merkle_tree::H256,
    DefaultStore<sparse_merkle_tree::H256>,
>;

fn as_ref_h256(h: &subsmt::H256) -> sparse_merkle_tree::H256 {
    h.bytes.into()
}

#[test]
fn roots_match_reference_engine() {
    let dir = tempfile::tempdir().unwrap();
    let mut store = MultiSMTParityStore::open(dir.path().to_str().unwrap(), 1).unwrap();
    let mut reference = RefSMT::default();

    for i in 1..=12u32 {
        let k = SMTKey { address: i.to_string() };
        let v = SMTValue { nonce: i as u64, balance: (i as u128) * 1000 };
        let my_root = store.update(0, &k, &v).unwrap();
        let ref_root = *reference
            .update(as_ref_h256(&k.to_h256()), as_ref_h256(&v.to_h256()))
            .unwrap();
        assert_eq!(my_root.bytes, <[u8; 32]>::from(ref_root));
    }

    // Removal tracks the reference too.
    let gone = SMTKey { address: "7".to_string() };
    let my_root = store.update(0, &gone, &SMTValue::zero()).unwrap();
    let ref_root = *reference
        .update(as_ref_h256(&gone.to_h256()), sparse_merkle_tree::H256::zero())
        .unwrap();
    assert_eq!(my_root.bytes, <[u8; 32]>::from(ref_root));
}

#[test]
fn reference_compiled_proof_runs_on_this_machine() {
    let mut reference = RefSMT::default();
    let mut keys: Vec<(subsmt::H256, subsmt::H256)> = Vec::new();
    for i in 1..=5u32 {
        let k = SMTKey { address: i.to_string() };
        let v = SMTValue { nonce: i as u64, balance: i as u128 };
        let path = k.to_h256();
        let vh = v.to_h256();
        keys.push((path, vh));
        reference.update(as_ref_h256(&path), as_ref_h256(&vh)).unwrap();
    }
    let ref_root = *reference.root();

    // Compile a proof for two of the keys with the reference engine, then
    // replay it with this library's machine.
    let chosen: Vec<(subsmt::H256, subsmt::H256)> = vec![keys[1], keys[3]];
    let ref_paths: Vec<sparse_merkle_tree::H256> = chosen
        .iter()
        .map(|p| as_ref_h256(&p.0))
        .collect();
    let proof = reference.merkle_proof(ref_paths.clone()).unwrap();
    let compiled = proof.compile(ref_paths).unwrap();

    let computed = subsmt::compiled::compute_root(&compiled.0, chosen).unwrap();
    assert_eq!(computed.bytes, <[u8; 32]>::from(ref_root));
}

#[test]
fn own_compiled_proof_matches_reference_bytes() {
    let dir = tempfile::tempdir().unwrap();
    let mut store = MultiSMTParityStore::open(dir.path().to_str().unwrap(), 1).unwrap();
    let mut reference = RefSMT::default();

    for i in 1..=6u32 {
        let k = SMTKey { address: i.to_string() };
        let v = SMTValue { nonce: i as u64, balance: i as u128 };
        store.update(0, &k, &v).unwrap();
        reference
            .update(as_ref_h256(&k.to_h256()), as_ref_h256(&v.to_h256()))
            .unwrap();
    }
    let k = SMTKey { address: "4".to_string() };
    let mine = store.get_merkle_proof_old(0, &vec![k.clone()]).unwrap();
    let ref_path = as_ref_h256(&k.to_h256());
    let theirs = reference
        .merkle_proof(vec![ref_path])
        .unwrap()
        .compile(vec![ref_path])
        .unwrap();
    assert_eq!(mine, theirs.0);
}
