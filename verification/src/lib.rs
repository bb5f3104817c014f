//! An ahead-of-time compiler for the Intcode instruction set.
//!
//! Program memory is a flat array of signed 64-bit words. Each instruction is
//! a decimal-encoded opcode plus parameter-mode digits. The library decodes
//! instructions, translates a program in one linear pass into a sequence of
//! target-independent operations with all jump targets resolved, and provides
//! a reference executor for the translated operations. A native backend that
//! encodes the operations for a concrete architecture can be layered on top.

use vstd::prelude::*;

pub mod decode;
pub mod finalize;
pub mod ir;
pub mod laws;
pub mod parse;
pub mod translate;
pub mod vm;

verus! {

use crate::finalize::{binds_of, patch, patch_ok, patch_one, patched};
use crate::ir::{op_target, Op};
use crate::parse::program_of;
use crate::translate::{
    lemma_translate_from_binds,
    translate_all,
    translate_from,
    CompileError,
};
use crate::vm::Artifact;

/// The finalized operations the compiler produces for a program memory: the
/// whole emission pass in program order, the implicit final return appended
/// for programs lacking an explicit terminator, and every label reference
/// resolved.
pub open spec fn compiled_ops(mem: Seq<i64>) -> Result<Seq<Op<usize>>, CompileError> {
    match translate_from(mem, 0, 0) {
        Ok(t) => {
            let all = t.ops.push(Op::Ret);
            if patch_ok(all, t.binds) {
                Ok(patched(all, t.binds))
            } else {
                Err(CompileError::UnboundJumpTarget)
            }
        },
        Err(e) => Err(e),
    }
}

/// Compile one program memory into an artifact that closes over it.
///
/// Compilation either fully succeeds and yields one usable artifact whose
/// operations are exactly [`compiled_ops`] of the memory, or aborts with
/// the error that spec gives, and no artifact exists.
pub fn compile(mem: Vec<i64>) -> (r: Result<Artifact, CompileError>)
    ensures
        match r {
            Ok(art) => {
                &&& compiled_ops(mem@) == Ok::<Seq<Op<usize>>, CompileError>(art.ops@)
                &&& art.mem@ == mem@
                &&& art.wf()
            },
            Err(e) => compiled_ops(mem@) == Err::<Seq<Op<usize>>, CompileError>(e),
        },
{
    let (mut ops, bound) = match translate_all(&mem) {
        Ok(p) => p,
        Err(e) => {
            return Err(e);
        },
    };
    // Implicit halt-equivalent return, so that programs lacking an explicit
    // terminator still return control safely.
    ops.push(Op::Ret);
    let total = ops.len();
    proof {
        lemma_translate_from_binds(mem@, 0, 0);
        let t = translate_from(mem@, 0, 0)->Ok_0;
        assert(ops@ =~= t.ops.push(Op::Ret::<i64>));
        assert(binds_of(bound@) =~= t.binds);
    }
    let patched_ops = match patch(&ops, &bound) {
        Ok(p) => p,
        Err(e) => {
            return Err(e);
        },
    };
    let art = Artifact { ops: patched_ops, mem };
    proof {
        let t = translate_from(mem@, 0, 0)->Ok_0;
        let all = t.ops.push(Op::Ret::<i64>);
        assert(art.ops@.len() == total);
        assert forall|i: int|
            0 <= i < art.ops@.len() implies (#[trigger] op_target(art.ops@[i]) matches Some(tg)
            ==> (tg as int) < art.ops@.len()) by {
            assert(art.ops@[i] == patch_one(all[i], t.binds));
            match op_target(all[i]) {
                Some(raw) => {
                    assert(t.binds.contains_key(raw as int));
                    assert(t.binds[raw as int] <= t.ops.len());
                },
                None => {},
            }
        }
        assert(all.last() == Op::Ret::<i64>);
        assert(art.ops@.last() == patch_one(all.last(), t.binds));
    }
    Ok(art)
}

/// Compile program text: parse the comma-separated signed integers into
/// program memory, then compile that memory. Malformed text aborts before
/// any translation begins.
pub fn compile_text(src: &[u8]) -> (r: Result<Artifact, CompileError>)
    ensures
        match r {
            Ok(art) => {
                &&& program_of(src@) matches Some(m) && compiled_ops(m) == Ok::<
                    Seq<Op<usize>>,
                    CompileError,
                >(art.ops@) && art.mem@ == m
                &&& art.wf()
            },
            Err(e) => match program_of(src@) {
                Some(m) => compiled_ops(m) == Err::<Seq<Op<usize>>, CompileError>(e),
                None => e == CompileError::MalformedText,
            },
        },
{
    match crate::parse::parse_program(src) {
        Some(mem) => compile(mem),
        None => Err(CompileError::MalformedText),
    }
}

} // verus!
