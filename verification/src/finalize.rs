//! Finalization: resolve every label reference against the code position its
//! offset was bound to. After this phase the operations are immutable and
//! every jump names an operation index, never an instruction offset.

use vstd::prelude::*;

verus! {

use crate::ir::{op_target, Op};
use crate::translate::CompileError;

/// The label table as a mapping: each instruction offset whose label was
/// bound, to the operation index it was bound at.
pub open spec fn binds_of(bound: Seq<Option<usize>>) -> Map<int, int> {
    Map::new(
        |o: int| 0 <= o < bound.len() && bound[o] is Some,
        |o: int| bound[o].unwrap() as int,
    )
}

/// Rewrite one operation's jump target, if it has one, through the label
/// table. Meaningful when the target is bound.
pub open spec fn patch_one(op: Op<i64>, binds: Map<int, int>) -> Op<usize> {
    match op {
        Op::Load(p) => Op::Load(p),
        Op::Add(p) => Op::Add(p),
        Op::Mul(p) => Op::Mul(p),
        Op::CmpSet { less, src } => Op::CmpSet { less, src },
        Op::Store { addr } => Op::Store { addr },
        Op::StoreInput { addr } => Op::StoreInput { addr },
        Op::Output(p) => Op::Output(p),
        Op::Branch { nonzero, addr, target } => Op::Branch {
            nonzero,
            addr,
            target: binds[target as int] as usize,
        },
        Op::Jump { target } => Op::Jump { target: binds[target as int] as usize },
        Op::Ret => Op::Ret,
    }
}

/// Whether every jump target among the operations is bound in the table.
pub open spec fn patch_ok(ops: Seq<Op<i64>>, binds: Map<int, int>) -> bool {
    forall|i: int|
        0 <= i < ops.len() ==> (#[trigger] op_target(ops[i]) matches Some(t)
            ==> binds.contains_key(t as int))
}

/// The finalized operations: each one with its target resolved.
pub open spec fn patched(ops: Seq<Op<i64>>, binds: Map<int, int>) -> Seq<Op<usize>> {
    Seq::new(ops.len(), |i: int| patch_one(ops[i], binds))
}

/// Look one jump target up in the label table.
fn lookup(bound: &Vec<Option<usize>>, target: i64) -> (r: Option<usize>)
    ensures
        r matches Some(j) ==> binds_of(bound@).contains_key(target as int) && j as int == binds_of(
            bound@,
        )[target as int],
        r is None ==> !binds_of(bound@).contains_key(target as int),
{
    if target < 0 {
        return None;
    }
    let t = target as u64;
    if t >= bound.len() as u64 {
        return None;
    }
    bound[t as usize]
}

/// Resolve every label reference, or report the first jump whose target
/// offset was never bound: such a reference cannot be resolved and
/// finalization fails rather than emitting incorrect code.
pub fn patch(ops: &Vec<Op<i64>>, bound: &Vec<Option<usize>>) -> (r: Result<
    Vec<Op<usize>>,
    CompileError,
>)
    ensures
        match r {
            Ok(p) => patch_ok(ops@, binds_of(bound@)) && p@ == patched(ops@, binds_of(bound@)),
            Err(e) => !patch_ok(ops@, binds_of(bound@)) && e == CompileError::UnboundJumpTarget,
        },
{
    let ghost binds = binds_of(bound@);
    let mut out: Vec<Op<usize>> = Vec::new();
    let mut i: usize = 0;
    while i < ops.len()
        invariant
            i <= ops@.len(),
            out@.len() == i,
            binds == binds_of(bound@),
            forall|j: int|
                0 <= j < i ==> (#[trigger] op_target(ops@[j]) matches Some(t)
                    ==> binds.contains_key(t as int)),
            forall|j: int| 0 <= j < i ==> #[trigger] out@[j] == patch_one(ops@[j], binds),
        decreases ops@.len() - i,
    {
        let op = ops[i];
        match op {
            Op::Load(p) => out.push(Op::Load(p)),
            Op::Add(p) => out.push(Op::Add(p)),
            Op::Mul(p) => out.push(Op::Mul(p)),
            Op::CmpSet { less, src } => out.push(Op::CmpSet { less, src }),
            Op::Store { addr } => out.push(Op::Store { addr }),
            Op::StoreInput { addr } => out.push(Op::StoreInput { addr }),
            Op::Output(p) => out.push(Op::Output(p)),
            Op::Branch { nonzero, addr, target } => {
                match lookup(bound, target) {
                    Some(j) => out.push(Op::Branch { nonzero, addr, target: j }),
                    None => {
                        proof {
                            assert(op_target(ops@[i as int]) matches Some(t)
                                && !binds.contains_key(t as int));
                        }
                        return Err(CompileError::UnboundJumpTarget);
                    },
                }
            },
            Op::Jump { target } => {
                match lookup(bound, target) {
                    Some(j) => out.push(Op::Jump { target: j }),
                    None => {
                        proof {
                            assert(op_target(ops@[i as int]) matches Some(t)
                                && !binds.contains_key(t as int));
                        }
                        return Err(CompileError::UnboundJumpTarget);
                    },
                }
            },
            Op::Ret => out.push(Op::Ret),
        }
        i = i + 1;
    }
    proof {
        assert(out@ =~= patched(ops@, binds));
    }
    Ok(out)
}

} // verus!
