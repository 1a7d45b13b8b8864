//! The on-chain verifier facade: holds no state and only checks proofs,
//! following the rule that chains verify and never recompute trees.

use vstd::prelude::*;
use crate::merge::MergeValue;
use crate::verify::{Proof, verify as smt_verify, verify_s};

verus! {

/// Why an on-chain verification failed.
pub enum SmtVerifyError {
    /// The proof does not reconstruct its root.
    SMTVerifyFaild,
}

/// The stateless verifier contract.
pub struct Smt;

impl Smt {
    /// A fresh verifier; it has no state.
    pub fn new() -> (r: Smt) {
        Smt
    }

    /// Check a proof bundle against the root it carries.
    pub fn smt_verify(&self, proof: &Proof) -> (r: Result<(), SmtVerifyError>)
        ensures
            r is Ok <==> verify_s(
                proof.path@,
                proof.value_hash@,
                proof.leave_bitmap@,
                proof.siblings@.map_values(|mv: MergeValue| mv@),
                proof.root@,
            ),
    {
        self.do_verify(proof)
    }

    /// The check itself, shared by every entry point.
    fn do_verify(&self, proof: &Proof) -> (r: Result<(), SmtVerifyError>)
        ensures
            r is Ok <==> verify_s(
                proof.path@,
                proof.value_hash@,
                proof.leave_bitmap@,
                proof.siblings@.map_values(|mv: MergeValue| mv@),
                proof.root@,
            ),
    {
        let mut siblings: Vec<MergeValue> = Vec::new();
        let mut i: usize = 0;
        while i < proof.siblings.len()
            invariant
                i <= proof.siblings@.len(),
                siblings@ == proof.siblings@.subrange(0, i as int),
            decreases proof.siblings@.len() - i,
        {
            siblings.push(proof.siblings[i]);
            assert(siblings@ =~= proof.siblings@.subrange(0, i + 1 as int));
            i = i + 1;
        }
        assert(siblings@ =~= proof.siblings@);
        if smt_verify(proof.path, proof.value_hash, proof.leave_bitmap, siblings, proof.root) {
            Ok(())
        } else {
            Err(SmtVerifyError::SMTVerifyFaild)
        }
    }
}

} // verus!
