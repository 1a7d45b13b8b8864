//! Compiled proofs: a compact byte program that recomputes a root.
//!
//! A compiled proof is a sequence of op codes over a stack of partial
//! summaries: `L` pushes the next supplied leaf, `P` and `Q` merge the top
//! with a sibling carried in the program, `H` merges the two top entries,
//! and `O` merges the top with a run of zero siblings. Running the program
//! against `(path, value hash)` pairs yields the root those leaves would
//! give — without touching any store.

use vstd::prelude::*;
use crate::error::SmtError;
use crate::h256::{H256, zero32, bit_of, parent_path_s};
use crate::merge::{MvV, MergeValue, mv_zero, mv_is_zero, mv_hash_s, merge_s, merge};
use crate::codec::read_h256;

verus! {

/// Op code: push the next leaf.
pub const OP_LEAF: u8 = 0x4C;

/// Op code: merge the stack top with an opaque sibling hash.
pub const OP_SIBLING: u8 = 0x50;

/// Op code: merge the stack top with a collapsed sibling record.
pub const OP_SIBLING_ZERO: u8 = 0x51;

/// Op code: merge the two top stack entries.
pub const OP_MERGE: u8 = 0x48;

/// Op code: merge the stack top with a run of zero siblings.
pub const OP_ZEROS: u8 = 0x4F;

/// Whether `a` reads greater than `b` as a path, comparing the bytes from
/// the root end down: byte `j-1` decides first.
pub open spec fn path_gt_from(a: Seq<u8>, b: Seq<u8>, j: int) -> bool
    decreases j,
{
    if j <= 0 {
        false
    } else if a[j - 1] != b[j - 1] {
        a[j - 1] > b[j - 1]
    } else {
        path_gt_from(a, b, j - 1)
    }
}

/// The path order used to arrange leaves before running a program.
pub open spec fn path_gt(a: Seq<u8>, b: Seq<u8>) -> bool {
    path_gt_from(a, b, 32)
}

/// Insert a leaf into a sorted run, after every leaf not greater than it.
pub open spec fn insert_sorted_s(
    x: (Seq<u8>, Seq<u8>),
    s: Seq<(Seq<u8>, Seq<u8>)>,
) -> Seq<(Seq<u8>, Seq<u8>)>
    decreases s.len(),
{
    if s.len() == 0 {
        seq![x]
    } else if path_gt(s[0].0, x.0) {
        seq![x] + s
    } else {
        seq![s[0]] + insert_sorted_s(x, s.drop_first())
    }
}

/// The first `i` leaves arranged in path order, earlier equal paths first.
pub open spec fn sort_upto(s: Seq<(Seq<u8>, Seq<u8>)>, i: int) -> Seq<(Seq<u8>, Seq<u8>)>
    decreases i,
{
    if i <= 0 {
        Seq::empty()
    } else {
        insert_sorted_s(s[i - 1], sort_upto(s, i - 1))
    }
}

/// The leaves arranged in path order.
pub open spec fn sort_leaves_s(s: Seq<(Seq<u8>, Seq<u8>)>) -> Seq<(Seq<u8>, Seq<u8>)> {
    sort_upto(s, s.len() as int)
}

/// Merge a summary with `count` zero siblings, walking up from height `h`
/// along `key`; fails when the walk would pass the root.
pub open spec fn vm_zeros(key: Seq<u8>, value: MvV, h: nat, count: nat) -> Option<
    (nat, Seq<u8>, MvV),
>
    decreases count,
{
    if h > 255 || count == 0 {
        None
    } else {
        let pk = parent_path_s(key, h as int);
        let v2 = if bit_of(key, h as int) {
            merge_s(h as u8, pk, mv_zero(), value)
        } else {
            merge_s(h as u8, pk, value, mv_zero())
        };
        if count == 1 {
            Some(((h + 1) as nat, pk, v2))
        } else {
            vm_zeros(key, v2, (h + 1) as nat, (count - 1) as nat)
        }
    }
}

/// Run a compiled program from `pc` with `li` leaves already consumed and
/// the given stack: the op code machine, step by step, error for error.
#[verifier::opaque]
pub open spec fn vm_run(
    prog: Seq<u8>,
    leaves: Seq<(Seq<u8>, Seq<u8>)>,
    pc: int,
    li: int,
    stack: Seq<(nat, Seq<u8>, MvV)>,
) -> Result<Seq<u8>, SmtError>
    decreases prog.len() - pc,
{
    if pc < 0 || pc >= prog.len() {
        if stack.len() != 1 {
            Err(SmtError::CorruptedStack)
        } else if stack[0].0 != 256 {
            Err(SmtError::CorruptedProof)
        } else if li != leaves.len() {
            Err(SmtError::CorruptedProof)
        } else {
            Ok(mv_hash_s(stack[0].2))
        }
    } else {
        let code = prog[pc];
        if code == OP_LEAF {
            if li >= leaves.len() || li < 0 {
                Err(SmtError::CorruptedStack)
            } else {
                vm_run(
                    prog,
                    leaves,
                    pc + 1,
                    li + 1,
                    stack.push((0, leaves[li].0, MvV::Value(leaves[li].1))),
                )
            }
        } else if code == OP_SIBLING {
            if stack.len() == 0 {
                Err(SmtError::CorruptedStack)
            } else if pc + 33 > prog.len() {
                Err(SmtError::CorruptedProof)
            } else {
                let top = stack.last();
                if top.0 > 255 {
                    Err(SmtError::CorruptedProof)
                } else {
                    let sib = MvV::Value(prog.subrange(pc + 1, pc + 33));
                    let h = top.0;
                    let pk = parent_path_s(top.1, h as int);
                    let parent = if bit_of(top.1, h as int) {
                        merge_s(h as u8, pk, sib, top.2)
                    } else {
                        merge_s(h as u8, pk, top.2, sib)
                    };
                    vm_run(
                        prog,
                        leaves,
                        pc + 33,
                        li,
                        stack.drop_last().push(((h + 1) as nat, pk, parent)),
                    )
                }
            }
        } else if code == OP_SIBLING_ZERO {
            if stack.len() == 0 {
                Err(SmtError::CorruptedStack)
            } else if pc + 66 > prog.len() {
                Err(SmtError::CorruptedProof)
            } else {
                let top = stack.last();
                if top.0 > 255 {
                    Err(SmtError::CorruptedProof)
                } else {
                    let sib = MvV::MergeWithZero {
                        base_node: prog.subrange(pc + 2, pc + 34),
                        zero_bits: prog.subrange(pc + 34, pc + 66),
                        zero_count: prog[pc + 1],
                    };
                    let h = top.0;
                    let pk = parent_path_s(top.1, h as int);
                    let parent = if bit_of(top.1, h as int) {
                        merge_s(h as u8, pk, sib, top.2)
                    } else {
                        merge_s(h as u8, pk, top.2, sib)
                    };
                    vm_run(
                        prog,
                        leaves,
                        pc + 66,
                        li,
                        stack.drop_last().push(((h + 1) as nat, pk, parent)),
                    )
                }
            }
        } else if code == OP_MERGE {
            if stack.len() < 2 {
                Err(SmtError::CorruptedStack)
            } else {
                let b = stack.last();
                let a = stack[stack.len() - 2];
                if a.0 != b.0 {
                    Err(SmtError::CorruptedProof)
                } else if a.0 > 255 {
                    Err(SmtError::CorruptedProof)
                } else {
                    let h = a.0;
                    let pka = parent_path_s(a.1, h as int);
                    let pkb = parent_path_s(b.1, h as int);
                    if pka != pkb {
                        Err(SmtError::CorruptedProof)
                    } else {
                        let parent = if bit_of(a.1, h as int) {
                            merge_s(h as u8, pka, b.2, a.2)
                        } else {
                            merge_s(h as u8, pka, a.2, b.2)
                        };
                        vm_run(
                            prog,
                            leaves,
                            pc + 1,
                            li,
                            stack.drop_last().drop_last().push(((h + 1) as nat, pka, parent)),
                        )
                    }
                }
            }
        } else if code == OP_ZEROS {
            if stack.len() == 0 {
                Err(SmtError::CorruptedStack)
            } else if pc + 2 > prog.len() {
                Err(SmtError::CorruptedProof)
            } else {
                let nbyte = prog[pc + 1];
                let count: nat = if nbyte == 0 {
                    256
                } else {
                    nbyte as nat
                };
                let top = stack.last();
                if top.0 > 255 {
                    Err(SmtError::CorruptedProof)
                } else {
                    match vm_zeros(top.1, top.2, top.0, count) {
                        None => Err(SmtError::CorruptedProof),
                        Some((h2, pk, v2)) => vm_run(
                            prog,
                            leaves,
                            pc + 2,
                            li,
                            stack.drop_last().push((h2, pk, v2)),
                        ),
                    }
                }
            }
        } else {
            Err(SmtError::InvalidCode(code))
        }
    }
}

/// Whether `a` reads greater than `b` as a path.
pub fn path_gt_exec(a: &H256, b: &H256) -> (r: bool)
    ensures
        r == path_gt(a@, b@),
{
    let mut j: usize = 32;
    while j > 0
        invariant
            j <= 32,
            path_gt(a@, b@) == path_gt_from(a@, b@, j as int),
        decreases j,
    {
        if a.bytes[j - 1] != b.bytes[j - 1] {
            return a.bytes[j - 1] > b.bytes[j - 1];
        }
        j = j - 1;
    }
    false
}

/// Arrange leaves in path order, earlier equal paths first.
fn sort_leaves(leaves: Vec<(H256, H256)>) -> (r: Vec<(H256, H256)>)
    ensures
        r@.map_values(|p: (H256, H256)| (p.0@, p.1@)) == sort_leaves_s(
            leaves@.map_values(|p: (H256, H256)| (p.0@, p.1@)),
        ),
{
    let ghost model = leaves@.map_values(|p: (H256, H256)| (p.0@, p.1@));
    let mut out: Vec<(H256, H256)> = Vec::new();
    let mut i: usize = 0;
    assert(out@.map_values(|p: (H256, H256)| (p.0@, p.1@)) =~= sort_upto(model, 0));
    while i < leaves.len()
        invariant
            i <= leaves@.len(),
            model == leaves@.map_values(|p: (H256, H256)| (p.0@, p.1@)),
            out@.map_values(|p: (H256, H256)| (p.0@, p.1@)) == sort_upto(model, i as int),
            out@.len() == i,
        decreases leaves@.len() - i,
    {
        let x = leaves[i];
        let ghost sorted = out@.map_values(|p: (H256, H256)| (p.0@, p.1@));
        let mut idx: usize = 0;
        let mut stop = false;
        while idx < out.len() && !stop
            invariant
                idx <= out@.len(),
                sorted == out@.map_values(|p: (H256, H256)| (p.0@, p.1@)),
                sorted.len() == out@.len(),
                forall|k: int| 0 <= k < idx ==> !path_gt(sorted[k].0, x.0@),
                stop ==> idx < out@.len() && path_gt(sorted[idx as int].0, x.0@),
            decreases out@.len() - idx + (if stop {
                0int
            } else {
                1int
            }),
        {
            if path_gt_exec(&out[idx].0, &x.0) {
                stop = true;
            } else {
                idx = idx + 1;
            }
        }
        assert(idx < out@.len() ==> path_gt(sorted[idx as int].0, x.0@));
        proof {
            lemma_insert_at((x.0@, x.1@), sorted, idx as int);
        }
        out.insert(idx, x);
        assert(out@.map_values(|p: (H256, H256)| (p.0@, p.1@)) =~= sorted.take(idx as int)
            + seq![(x.0@, x.1@)] + sorted.skip(idx as int));
        assert(out@.map_values(|p: (H256, H256)| (p.0@, p.1@)) == sort_upto(
            model,
            i as int + 1,
        ));
        i = i + 1;
    }
    out
}

/// Inserting at the first place whose path reads greater splits the run
/// right there.
proof fn lemma_insert_at(x: (Seq<u8>, Seq<u8>), s: Seq<(Seq<u8>, Seq<u8>)>, idx: int)
    requires
        0 <= idx <= s.len(),
        forall|k: int| 0 <= k < idx ==> !path_gt(s[k].0, x.0),
        idx < s.len() ==> path_gt(s[idx].0, x.0),
    ensures
        insert_sorted_s(x, s) == s.take(idx) + seq![x] + s.skip(idx),
    decreases idx,
{
    if s.len() == 0 {
        assert(insert_sorted_s(x, s) =~= s.take(idx) + seq![x] + s.skip(idx));
    } else if idx == 0 {
        assert(insert_sorted_s(x, s) =~= s.take(0) + seq![x] + s.skip(0));
    } else {
        lemma_insert_at(x, s.drop_first(), idx - 1);
        assert(s.drop_first().take(idx - 1) =~= s.take(idx).drop_first());
        assert(s.drop_first().skip(idx - 1) =~= s.skip(idx));
        assert(seq![s[0]] + (s.take(idx).drop_first() + seq![x] + s.skip(idx)) =~= s.take(idx)
            + seq![x] + s.skip(idx));
    }
}


/// The model of an execution stack.
pub open spec fn stack_view(s: Seq<(u16, H256, MergeValue)>) -> Seq<(nat, Seq<u8>, MvV)> {
    s.map_values(|t: (u16, H256, MergeValue)| (t.0 as nat, t.1@, t.2@))
}

/// Merge the stack top with a sibling carried in the program (`P` and `Q`).
fn op_sibling(
    prog: &[u8],
    stack: &mut Vec<(u16, H256, MergeValue)>,
    pc: usize,
    Ghost(lm): Ghost<Seq<(Seq<u8>, Seq<u8>)>>,
    Ghost(li): Ghost<int>,
) -> (r: Result<usize, SmtError>)
    requires
        pc < prog@.len(),
        prog@[pc as int] == OP_SIBLING || prog@[pc as int] == OP_SIBLING_ZERO,
    ensures
        match r {
            Ok(npc) => pc < npc <= prog@.len() && vm_run(
                prog@,
                lm,
                pc as int,
                li,
                stack_view(old(stack)@),
            ) == vm_run(prog@, lm, npc as int, li, stack_view(final(stack)@)),
            Err(e) => vm_run(prog@, lm, pc as int, li, stack_view(old(stack)@)) == Err::<
                Seq<u8>,
                SmtError,
            >(e),
        },
{
    proof {
        reveal(vm_run);
    }
    let ghost sm0 = stack_view(stack@);
    let code = prog[pc];
    let width: usize = if code == OP_SIBLING {
        33
    } else {
        66
    };
    if stack.len() == 0 {
        return Err(SmtError::CorruptedStack);
    }
    if width > prog.len() - pc {
        return Err(SmtError::CorruptedProof);
    }
    let (height_u16, key, value) = stack.pop().unwrap();
    proof {
        assert(sm0.last() == (height_u16 as nat, key@, value@));
        assert(stack_view(stack@) =~= sm0.drop_last());
    }
    if height_u16 > 255 {
        return Err(SmtError::CorruptedProof);
    }
    let sibling = if code == OP_SIBLING {
        MergeValue::from_h256(read_h256(prog, pc + 1))
    } else {
        let zero_count = prog[pc + 1];
        let base_node = read_h256(prog, pc + 2);
        let zero_bits = read_h256(prog, pc + 34);
        MergeValue::MergeWithZero { base_node, zero_bits, zero_count }
    };
    let h = height_u16 as u8;
    let parent_key = key.parent_path(h);
    let parent = if key.get_bit(h) {
        merge(h, &parent_key, &sibling, &value)
    } else {
        merge(h, &parent_key, &value, &sibling)
    };
    stack.push((height_u16 + 1, parent_key, parent));
    proof {
        assert(stack_view(stack@) =~= sm0.drop_last().push(
            ((height_u16 + 1) as nat, parent_key@, parent@),
        ));
    }
    Ok(pc + width)
}

/// Merge the two top stack entries (`H`).
fn op_merge(
    prog: &[u8],
    stack: &mut Vec<(u16, H256, MergeValue)>,
    pc: usize,
    Ghost(lm): Ghost<Seq<(Seq<u8>, Seq<u8>)>>,
    Ghost(li): Ghost<int>,
) -> (r: Result<usize, SmtError>)
    requires
        pc < prog@.len(),
        prog@[pc as int] == OP_MERGE,
    ensures
        match r {
            Ok(npc) => pc < npc <= prog@.len() && vm_run(
                prog@,
                lm,
                pc as int,
                li,
                stack_view(old(stack)@),
            ) == vm_run(prog@, lm, npc as int, li, stack_view(final(stack)@)),
            Err(e) => vm_run(prog@, lm, pc as int, li, stack_view(old(stack)@)) == Err::<
                Seq<u8>,
                SmtError,
            >(e),
        },
{
    proof {
        reveal(vm_run);
    }
    let ghost sm0 = stack_view(stack@);
    let plen = prog.len();
    assert(pc < plen);
    if stack.len() < 2 {
        return Err(SmtError::CorruptedStack);
    }
    let (height_b, key_b, value_b) = stack.pop().unwrap();
    let (height_a, key_a, value_a) = stack.pop().unwrap();
    proof {
        assert(sm0.last() == (height_b as nat, key_b@, value_b@));
        assert(sm0.drop_last().last() == (height_a as nat, key_a@, value_a@));
        assert(sm0[sm0.len() - 2] == sm0.drop_last().last());
        assert(stack_view(stack@) =~= sm0.drop_last().drop_last());
    }
    if height_a != height_b {
        return Err(SmtError::CorruptedProof);
    }
    if height_a > 255 {
        return Err(SmtError::CorruptedProof);
    }
    let h = height_a as u8;
    let parent_key_a = key_a.parent_path(h);
    let parent_key_b = key_b.parent_path(h);
    if !parent_key_a.equals(&parent_key_b) {
        return Err(SmtError::CorruptedProof);
    }
    let parent = if key_a.get_bit(h) {
        merge(h, &parent_key_a, &value_b, &value_a)
    } else {
        merge(h, &parent_key_a, &value_a, &value_b)
    };
    stack.push((height_a + 1, parent_key_a, parent));
    proof {
        assert(stack_view(stack@) =~= sm0.drop_last().drop_last().push(
            ((height_a + 1) as nat, parent_key_a@, parent@),
        ));
    }
    Ok(pc + 1)
}

/// Merge the stack top with a run of zero siblings (`O`).
fn op_zeros(
    prog: &[u8],
    stack: &mut Vec<(u16, H256, MergeValue)>,
    pc: usize,
    Ghost(lm): Ghost<Seq<(Seq<u8>, Seq<u8>)>>,
    Ghost(li): Ghost<int>,
) -> (r: Result<usize, SmtError>)
    requires
        pc < prog@.len(),
        prog@[pc as int] == OP_ZEROS,
    ensures
        match r {
            Ok(npc) => pc < npc <= prog@.len() && vm_run(
                prog@,
                lm,
                pc as int,
                li,
                stack_view(old(stack)@),
            ) == vm_run(prog@, lm, npc as int, li, stack_view(final(stack)@)),
            Err(e) => vm_run(prog@, lm, pc as int, li, stack_view(old(stack)@)) == Err::<
                Seq<u8>,
                SmtError,
            >(e),
        },
{
    proof {
        reveal(vm_run);
    }
    let ghost sm0 = stack_view(stack@);
    if stack.len() == 0 {
        return Err(SmtError::CorruptedStack);
    }
    if 2 > prog.len() - pc {
        return Err(SmtError::CorruptedProof);
    }
    let nbyte = prog[pc + 1];
    let zero_count: u16 = if nbyte == 0 {
        256
    } else {
        nbyte as u16
    };
    let (height_u16, key, value) = stack.pop().unwrap();
    proof {
        assert(sm0.last() == (height_u16 as nat, key@, value@));
        assert(stack_view(stack@) =~= sm0.drop_last());
    }
    if height_u16 > 255 {
        return Err(SmtError::CorruptedProof);
    }
    let ghost v0 = value@;
    let ghost base = height_u16 as nat;
    let mut cur = value;
    let mut hcur: u16 = height_u16;
    let mut parent_key = key;
    let mut idx: u16 = 0;
    let mut failed = false;
    while idx < zero_count
        invariant
            idx <= zero_count,
            1 <= zero_count <= 256,
            height_u16 <= 255,
            hcur <= 510,
            base == height_u16 as nat,
            !failed && idx < zero_count ==> hcur == height_u16 + idx,
            !failed && idx < zero_count ==> vm_zeros(key@, v0, base, zero_count as nat)
                == vm_zeros(key@, cur@, hcur as nat, (zero_count - idx) as nat),
            !failed && idx == zero_count ==> vm_zeros(key@, v0, base, zero_count as nat)
                == Some(((hcur + 1) as nat, parent_key@, cur@)),
            failed ==> idx == zero_count,
            failed ==> vm_zeros(key@, v0, base, zero_count as nat) is None,
        decreases zero_count - idx,
    {
        if hcur > 255 {
            failed = true;
            idx = zero_count;
        } else {
            let ghost prev_cur = cur@;
            let ghost rem = (zero_count - idx) as nat;
            let h = hcur as u8;
            parent_key = key.parent_path(h);
            cur = if key.get_bit(h) {
                merge(h, &parent_key, &MergeValue::zero(), &cur)
            } else {
                merge(h, &parent_key, &cur, &MergeValue::zero())
            };
            proof {
                assert(vm_zeros(key@, prev_cur, hcur as nat, rem) == (if rem == 1 {
                    Some((((hcur + 1) as u16) as nat, parent_key@, cur@))
                } else {
                    vm_zeros(key@, cur@, ((hcur + 1) as u16) as nat, (rem - 1) as nat)
                }));
            }
            if idx + 1 < zero_count {
                hcur = hcur + 1;
            } else {
                proof {
                    assert(vm_zeros(key@, v0, base, zero_count as nat) == Some(
                        ((hcur + 1) as nat, parent_key@, cur@),
                    ));
                }
            }
            idx = idx + 1;
        }
    }
    if failed {
        return Err(SmtError::CorruptedProof);
    }
    stack.push((hcur + 1, parent_key, cur));
    proof {
        assert(stack_view(stack@) =~= sm0.drop_last().push(
            ((hcur + 1) as nat, parent_key@, cur@),
        ));
    }
    Ok(pc + 2)
}

/// Push the next supplied leaf (`L`).
fn op_leaf(
    sorted: &Vec<(H256, H256)>,
    stack: &mut Vec<(u16, H256, MergeValue)>,
    prog_len: usize,
    pc: usize,
    li: usize,
    Ghost(prog): Ghost<Seq<u8>>,
    Ghost(lm): Ghost<Seq<(Seq<u8>, Seq<u8>)>>,
) -> (r: Result<usize, SmtError>)
    requires
        pc < prog.len(),
        prog_len == prog.len(),
        prog[pc as int] == OP_LEAF,
        li <= lm.len(),
        lm == sorted@.map_values(|p: (H256, H256)| (p.0@, p.1@)),
    ensures
        match r {
            Ok(nli) => li < nli <= lm.len() && vm_run(
                prog,
                lm,
                pc as int,
                li as int,
                stack_view(old(stack)@),
            ) == vm_run(prog, lm, pc + 1, nli as int, stack_view(final(stack)@)),
            Err(e) => vm_run(prog, lm, pc as int, li as int, stack_view(old(stack)@)) == Err::<
                Seq<u8>,
                SmtError,
            >(e),
        },
{
    proof {
        reveal(vm_run);
    }
    let ghost sm0 = stack_view(stack@);
    if li >= sorted.len() {
        return Err(SmtError::CorruptedStack);
    }
    let (k, v) = sorted[li];
    stack.push((0, k, MergeValue::from_h256(v)));
    assert(stack_view(stack@) =~= sm0.push((0nat, lm[li as int].0, MvV::Value(lm[li as int].1))));
    Ok(li + 1)
}

/// Run a compiled proof against `(path, value hash)` leaves and return the
/// root they produce. The leaves are arranged in path order first, as the
/// proof was compiled with its keys in that order.
pub fn compute_root(proof_bytes: &Vec<u8>, leaves: Vec<(H256, H256)>) -> (r: Result<
    H256,
    SmtError,
>)
    ensures
        ({
            let lm = sort_leaves_s(leaves@.map_values(|p: (H256, H256)| (p.0@, p.1@)));
            match r {
                Ok(root) => vm_run(proof_bytes@, lm, 0, 0, Seq::empty()) == Ok::<
                    Seq<u8>,
                    SmtError,
                >(root@),
                Err(e) => vm_run(proof_bytes@, lm, 0, 0, Seq::empty()) == Err::<
                    Seq<u8>,
                    SmtError,
                >(e),
            }
        }),
{
    let sorted = sort_leaves(leaves);
    let ghost lm = sorted@.map_values(|p: (H256, H256)| (p.0@, p.1@));
    let prog = proof_bytes.as_slice();
    let mut pc: usize = 0;
    let mut li: usize = 0;
    let mut stack: Vec<(u16, H256, MergeValue)> = Vec::new();
    assert(stack_view(stack@) =~= Seq::<(nat, Seq<u8>, MvV)>::empty());
    while pc < prog.len()
        invariant
            pc <= prog@.len(),
            li <= lm.len(),
            prog@ == proof_bytes@,
            lm == sorted@.map_values(|p: (H256, H256)| (p.0@, p.1@)),
            lm == sort_leaves_s(leaves@.map_values(|p: (H256, H256)| (p.0@, p.1@))),
            lm.len() == sorted@.len(),
            vm_run(proof_bytes@, lm, 0, 0, Seq::empty()) == vm_run(
                proof_bytes@,
                lm,
                pc as int,
                li as int,
                stack_view(stack@),
            ),
        decreases prog@.len() - pc,
    {
        let code = prog[pc];
        if code == OP_LEAF {
            match op_leaf(&sorted, &mut stack, prog.len(), pc, li, Ghost(proof_bytes@), Ghost(
                lm,
            )) {
                Ok(nli) => {
                    pc = pc + 1;
                    li = nli;
                },
                Err(e) => {
                    return Err(e);
                },
            }
        } else if code == OP_SIBLING || code == OP_SIBLING_ZERO {
            match op_sibling(prog, &mut stack, pc, Ghost(lm), Ghost(li as int)) {
                Ok(npc) => {
                    pc = npc;
                },
                Err(e) => {
                    return Err(e);
                },
            }
        } else if code == OP_MERGE {
            match op_merge(prog, &mut stack, pc, Ghost(lm), Ghost(li as int)) {
                Ok(npc) => {
                    pc = npc;
                },
                Err(e) => {
                    return Err(e);
                },
            }
        } else if code == OP_ZEROS {
            match op_zeros(prog, &mut stack, pc, Ghost(lm), Ghost(li as int)) {
                Ok(npc) => {
                    pc = npc;
                },
                Err(e) => {
                    return Err(e);
                },
            }
        } else {
            proof {
                reveal(vm_run);
            }
            return Err(SmtError::InvalidCode(code));
        }
    }
    proof {
        reveal(vm_run);
    }
    let ghost stack_model = stack_view(stack@);
    if stack.len() != 1 {
        return Err(SmtError::CorruptedStack);
    }
    let (top_h, _top_key, top_v) = stack.pop().unwrap();
    proof {
        assert(stack_model.last() == (top_h as nat, _top_key@, top_v@));
        assert(stack_model[0] == stack_model.last());
    }
    if top_h != 256 {
        return Err(SmtError::CorruptedProof);
    }
    if li != sorted.len() {
        return Err(SmtError::CorruptedProof);
    }
    Ok(top_v.hash())
}


/// The byte form of one sibling op: an opaque hash after `P`, a collapsed
/// record's count, base node and zero bits after `Q`.
pub open spec fn encode_sib_op_s(mv: MvV) -> Seq<u8> {
    match mv {
        MvV::Value(v) => seq![OP_SIBLING] + v,
        MvV::MergeWithZero { base_node, zero_bits, zero_count } => seq![
            OP_SIBLING_ZERO,
            zero_count,
        ] + base_node + zero_bits,
    }
}

/// The byte form of a pending run of zero levels: nothing for none, the
/// `O` op with its count otherwise, 256 written as zero.
pub open spec fn flush_zeros_s(zrun: nat) -> Seq<u8> {
    if zrun == 0 {
        Seq::empty()
    } else if zrun == 256 {
        seq![OP_ZEROS, 0u8]
    } else {
        seq![OP_ZEROS, zrun as u8]
    }
}

/// The ops a single-path proof compiles to, from level `h` up, with `n`
/// siblings consumed and `zrun` zero levels pending.
pub open spec fn compile_ops(bm: Seq<u8>, sibs: Seq<MvV>, h: int, n: nat, zrun: nat) -> Seq<u8>
    decreases 256 - h,
{
    if h < 0 || h >= 256 {
        flush_zeros_s(zrun)
    } else if bit_of(bm, h) {
        flush_zeros_s(zrun) + encode_sib_op_s(
            if n < sibs.len() {
                sibs[n as int]
            } else {
                mv_zero()
            },
        ) + compile_ops(bm, sibs, h + 1, n + 1, 0)
    } else {
        compile_ops(bm, sibs, h + 1, n, zrun + 1)
    }
}

/// What a single-path proof compiles to: one leaf push, then the sibling
/// and zero-run ops in ascending level order.
pub open spec fn compile_single_s(bm: Seq<u8>, sibs: Seq<MvV>) -> Seq<u8> {
    seq![OP_LEAF] + compile_ops(bm, sibs, 0, 0, 0)
}

/// Compile a single-path proof into its byte program. A sibling list that
/// does not match the bitmap's set-bit count is rejected.
pub fn compile_proof(leave_bitmap: &H256, siblings: &Vec<MergeValue>) -> (r: Result<
    Vec<u8>,
    SmtError,
>)
    ensures
        ({
            let sibs = siblings@.map_values(|mv: MergeValue| mv@);
            match r {
                Ok(bytes) => crate::verify::count_bits_upto(leave_bitmap@, 256) == sibs.len()
                    && bytes@ == compile_single_s(leave_bitmap@, sibs),
                Err(e) => e matches SmtError::CorruptedProof && crate::verify::count_bits_upto(
                    leave_bitmap@,
                    256,
                ) != sibs.len(),
            }
        }),
{
    let ghost sibs = siblings@.map_values(|mv: MergeValue| mv@);
    let total = crate::verify::count_bits(leave_bitmap);
    if total != siblings.len() {
        return Err(SmtError::CorruptedProof);
    }
    let mut out: Vec<u8> = Vec::new();
    out.push(OP_LEAF);
    assert(out@ =~= seq![OP_LEAF]);
    let mut n: usize = 0;
    let mut zrun: u16 = 0;
    let mut h: u16 = 0;
    while h < 256
        invariant
            h <= 256,
            zrun <= h,
            n <= siblings@.len(),
            sibs == siblings@.map_values(|mv: MergeValue| mv@),
            sibs.len() == siblings@.len(),
            crate::verify::count_bits_upto(leave_bitmap@, 256) == sibs.len(),
            total as nat == sibs.len(),
            n as nat == crate::verify::count_bits_upto(leave_bitmap@, h as int),
            compile_single_s(leave_bitmap@, sibs) == out@ + compile_ops(
                leave_bitmap@,
                sibs,
                h as int,
                n as nat,
                zrun as nat,
            ),
        decreases 256 - h,
    {
        let hh = h as u8;
        if leave_bitmap.get_bit(hh) {
            proof {
                crate::verify::lemma_count_bits_mono(leave_bitmap@, h as int + 1, 256);
            }
            if zrun > 0 {
                out.push(OP_ZEROS);
                if zrun == 256 {
                    out.push(0u8);
                } else {
                    out.push(zrun as u8);
                }
            }
            let ghost mid = out@;
            let sib = siblings[n];
            match sib {
                MergeValue::Value(v) => {
                    out.push(OP_SIBLING);
                    let body = v.to_vec();
                    crate::codec::append_vec(&mut out, &body);
                    assert(out@ =~= mid + encode_sib_op_s(sibs[n as int]));
                },
                MergeValue::MergeWithZero { base_node, zero_bits, zero_count } => {
                    out.push(OP_SIBLING_ZERO);
                    out.push(zero_count);
                    let b = base_node.to_vec();
                    crate::codec::append_vec(&mut out, &b);
                    let z = zero_bits.to_vec();
                    crate::codec::append_vec(&mut out, &z);
                    assert(out@ =~= mid + encode_sib_op_s(sibs[n as int]));
                },
            }
            assert(n < total);
            n = n + 1;
            zrun = 0;
        } else {
            zrun = zrun + 1;
        }
        h = h + 1;
    }
    if zrun > 0 {
        out.push(OP_ZEROS);
        if zrun == 256 {
            out.push(0u8);
        } else {
            out.push(zrun as u8);
        }
    }
    assert(out@ =~= compile_single_s(leave_bitmap@, sibs));
    Ok(out)
}

} // verus!
