//! The library's stated laws: properties of translation and execution that
//! hold for every program, proved against the same spec functions the
//! compiler's and executor's contracts use.

use vstd::prelude::*;

verus! {

use crate::decode::{mode1_of, mode2_of, opcode_of, Mode};
use crate::finalize::patched;
use crate::ir::{operand_for, Op};
use crate::parse::program_of;
use crate::translate::{emit_of, emit_ok, inst_len, recognized};
use crate::vm::{init_state, operand_value, run_from, step, Artifact, StepOut, VmState};
use crate::compiled_ops;

/// Determinism: two artifacts compiled from identical program text have
/// identical operations and initial memory, and invoking each once with the
/// same input and step budget yields identical output and leaves identical
/// memory. Compilation and execution are functions of the text, input and
/// budget alone.
pub proof fn lemma_determinism(
    a1: Artifact,
    a2: Artifact,
    s1: Seq<u8>,
    s2: Seq<u8>,
    input: i64,
    fuel: nat,
)
    requires
        s1 == s2,
        program_of(s1) matches Some(m) && compiled_ops(m) == Ok::<Seq<Op<usize>>,
        crate::translate::CompileError>(a1.ops@) && a1.mem@ == m,
        program_of(s2) matches Some(m) && compiled_ops(m) == Ok::<Seq<Op<usize>>,
        crate::translate::CompileError>(a2.ops@) && a2.mem@ == m,
    ensures
        a1.ops@ == a2.ops@,
        a1.mem@ == a2.mem@,
        run_from(a1.ops@, input, init_state(a1.mem@), fuel) == run_from(
            a2.ops@,
            input,
            init_state(a2.mem@),
            fuel,
        ),
{
}

/// Mode-combination completeness: for each binary arithmetic or comparison
/// opcode (add, multiply, less-than, equals), under every combination of
/// parameter modes, executing the emitted operations from any state
/// computes the ordinary signed 64-bit result of the two resolved operands
/// (wrapping on overflow for add and multiply; 1-or-0 for the comparisons),
/// stores it at the destination address, and falls through.
pub proof fn lemma_binop_modes(
    ops: Seq<Op<usize>>,
    input: i64,
    s: VmState,
    mem: Seq<i64>,
    off: int,
    binds: Map<int, int>,
)
    requires
        0 <= off && off + 3 < mem.len(),
        ({
            let c = opcode_of(mem[off] as int);
            c == 1 || c == 2 || c == 7 || c == 8
        }),
        0 <= s.ip && s.ip + 3 <= ops.len(),
        ops.subrange(s.ip, s.ip + 3) == patched(emit_of(mem, off), binds),
        operand_value(s.mem, operand_for(mode1_of(mem[off] as int), mem[off + 1])) is Some,
        operand_value(s.mem, operand_for(mode2_of(mem[off] as int), mem[off + 2])) is Some,
        0 <= mem[off + 3] < s.mem.len(),
    ensures
        ({
            let c = opcode_of(mem[off] as int);
            let a = operand_value(
                s.mem,
                operand_for(mode1_of(mem[off] as int), mem[off + 1]),
            ).unwrap();
            let b = operand_value(
                s.mem,
                operand_for(mode2_of(mem[off] as int), mem[off + 2]),
            ).unwrap();
            let v = if c == 1 {
                a.wrapping_add(b)
            } else if c == 2 {
                a.wrapping_mul(b)
            } else if c == 7 {
                if a < b {
                    1i64
                } else {
                    0i64
                }
            } else {
                if a == b {
                    1i64
                } else {
                    0i64
                }
            };
            let dst = mem[off + 3] as int;
            step(ops, input, s) matches StepOut::Next(s1) && step(ops, input, s1)
                matches StepOut::Next(s2) && step(ops, input, s2) == StepOut::Next(
                VmState { mem: s.mem.update(dst, v), ip: s.ip + 3, acc: v, out: s.out },
            )
        }),
{
    let e = patched(emit_of(mem, off), binds);
    assert(ops[s.ip] == e[0]);
    assert(ops[s.ip + 1] == e[1]);
    assert(ops[s.ip + 2] == e[2]);
}

/// Branch correctness, compile-time-folded path: a jump whose condition is
/// Immediate is decided at translation time. It folds to one unconditional
/// jump to the target when the condition decides it is taken (non-zero for
/// opcode 5, zero for opcode 6), and to nothing otherwise.
pub proof fn lemma_branch_folded(mem: Seq<i64>, off: int)
    requires
        0 <= off && off + 2 < mem.len(),
        ({
            let c = opcode_of(mem[off] as int);
            c == 5 || c == 6
        }),
        mode1_of(mem[off] as int) == Mode::Immediate,
        mode2_of(mem[off] as int) == Mode::Immediate,
    ensures
        emit_ok(mem, off),
        ({
            let c = opcode_of(mem[off] as int);
            let taken = if c == 5 {
                mem[off + 1] != 0
            } else {
                mem[off + 1] == 0
            };
            emit_of(mem, off) == (if taken {
                seq![Op::Jump { target: mem[off + 2] }]
            } else {
                Seq::<Op<i64>>::empty()
            })
        }),
{
}

/// Branch correctness, runtime path: a jump whose condition is Position
/// emits one conditional branch. Executing it jumps to the operation the
/// target's label resolved to exactly when the condition's memory word is
/// non-zero (opcode 5) or zero (opcode 6), and falls through otherwise;
/// memory and registers are untouched either way.
pub proof fn lemma_branch_runtime(
    ops: Seq<Op<usize>>,
    input: i64,
    s: VmState,
    mem: Seq<i64>,
    off: int,
    binds: Map<int, int>,
)
    requires
        0 <= off && off + 2 < mem.len(),
        ({
            let c = opcode_of(mem[off] as int);
            c == 5 || c == 6
        }),
        mode1_of(mem[off] as int) == Mode::Position,
        mode2_of(mem[off] as int) == Mode::Immediate,
        0 <= s.ip < ops.len(),
        ops[s.ip] == patched(emit_of(mem, off), binds)[0],
        binds.contains_key(mem[off + 2] as int),
        0 <= binds[mem[off + 2] as int] <= usize::MAX,
        0 <= mem[off + 1] < s.mem.len(),
    ensures
        ({
            let c = opcode_of(mem[off] as int);
            let cond = s.mem[mem[off + 1] as int];
            let taken = if c == 5 {
                cond != 0
            } else {
                cond == 0
            };
            step(ops, input, s) == StepOut::Next(
                VmState {
                    ip: if taken {
                        binds[mem[off + 2] as int]
                    } else {
                        s.ip + 1
                    },
                    ..s
                },
            )
        }),
{
    let e = patched(emit_of(mem, off), binds);
    assert(ops[s.ip] == e[0]);
}

/// Hole tolerance: an unrecognized opcode word never aborts compilation; it
/// emits no operation and the pass consumes exactly one word, so the valid
/// instructions around it translate and execute as they would alone.
pub proof fn lemma_hole_tolerance(mem: Seq<i64>, off: int)
    requires
        0 <= off < mem.len(),
        !recognized(opcode_of(mem[off] as int)),
    ensures
        emit_ok(mem, off),
        emit_of(mem, off) == Seq::<Op<i64>>::empty(),
        inst_len(opcode_of(mem[off] as int)) == 1,
{
}

/// Halt semantics: a run starts with the output register at zero, only an
/// output operation changes that register, and a return yields exactly its
/// current value. The value a run returns is therefore the value written by
/// the last executed output operation before the return, or zero when none
/// executed.
pub proof fn lemma_halt_semantics(ops: Seq<Op<usize>>, input: i64, s: VmState)
    requires
        0 <= s.ip < ops.len(),
    ensures
        forall|m: Seq<i64>| #[trigger] init_state(m).out == 0,
        step(ops, input, s) matches StepOut::Next(s2) ==> s2.out == (match ops[s.ip] {
            Op::Output(p) => operand_value(s.mem, p).unwrap(),
            _ => s.out,
        }),
        step(ops, input, s) matches StepOut::Done { ret, mem } ==> ret == s.out,
{
}

} // verus!
