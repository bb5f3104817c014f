//! The translator: a single linear pass over instruction offsets that decodes
//! each instruction and emits the operations implementing its semantics,
//! advancing by the instruction's fixed length. Offsets are visited strictly
//! in program order regardless of jumps: memory that is also used as data is
//! translated too, and no dead code is eliminated.

use vstd::prelude::*;

verus! {

use crate::decode::{decode, mode1_of, mode2_of, opcode_of, Mode};
use crate::ir::{operand, operand_for, Op};

/// Why a compilation aborted. There is no partial success: compilation either
/// yields one usable artifact or aborts with one of these.
#[derive(Clone, Copy, PartialEq, Eq, Structural, Debug)]
pub enum CompileError {
    /// The program text is not comma-separated signed 64-bit integers.
    MalformedText,
    /// A jump instruction names its target in Position mode. Indirect jump
    /// targets are a deliberate scope limitation: translation aborts rather
    /// than emitting incorrect code.
    IndirectJump,
    /// Memory ends before the operand words an instruction requires.
    TruncatedInstruction,
    /// A jump names an offset at which no instruction was translated, so the
    /// label reference cannot be resolved at finalization.
    UnboundJumpTarget,
}

/// The recognized opcodes; every other decode result is a one-word hole.
pub open spec fn recognized(c: int) -> bool {
    (1 <= c && c <= 8) || c == 99
}

/// The fixed length, in memory words, of the instruction with opcode `c`.
pub open spec fn inst_len(c: int) -> int {
    if c == 1 || c == 2 || c == 7 || c == 8 {
        4
    } else if c == 3 || c == 4 {
        2
    } else if c == 5 || c == 6 {
        3
    } else {
        1
    }
}

/// Whether the instruction at `off` can be translated: its operand words lie
/// within memory and, for a jump, its target parameter is Immediate.
pub open spec fn emit_ok(mem: Seq<i64>, off: int) -> bool {
    let c = opcode_of(mem[off] as int);
    if c == 1 || c == 2 || c == 7 || c == 8 {
        off + 3 < mem.len()
    } else if c == 3 || c == 4 {
        off + 1 < mem.len()
    } else if c == 5 || c == 6 {
        mode2_of(mem[off] as int) == Mode::Immediate && off + 2 < mem.len()
    } else {
        true
    }
}

/// The error reported for the instruction at `off` when `!emit_ok(mem, off)`.
/// An indirect jump target is detected from the instruction word alone,
/// before its operand words are read.
pub open spec fn emit_err(mem: Seq<i64>, off: int) -> CompileError {
    let c = opcode_of(mem[off] as int);
    if (c == 5 || c == 6) && mode2_of(mem[off] as int) == Mode::Position {
        CompileError::IndirectJump
    } else {
        CompileError::TruncatedInstruction
    }
}

/// The operations emitted for the instruction at `off`, when `emit_ok`.
///
/// A hole emits nothing and is skipped. A jump whose condition is Immediate
/// is a compile-time constant: it folds to an unconditional jump or to
/// nothing (no self-modifying code is supported).
pub open spec fn emit_of(mem: Seq<i64>, off: int) -> Seq<Op<i64>> {
    let c = opcode_of(mem[off] as int);
    let m1 = mode1_of(mem[off] as int);
    let m2 = mode2_of(mem[off] as int);
    if c == 1 || c == 2 {
        seq![
            Op::Load(operand_for(m1, mem[off + 1])),
            if c == 1 {
                Op::Add(operand_for(m2, mem[off + 2]))
            } else {
                Op::Mul(operand_for(m2, mem[off + 2]))
            },
            Op::Store { addr: mem[off + 3] },
        ]
    } else if c == 3 {
        seq![Op::StoreInput { addr: mem[off + 1] }]
    } else if c == 4 {
        seq![Op::Output(operand_for(m1, mem[off + 1]))]
    } else if c == 5 || c == 6 {
        if m1 == Mode::Immediate {
            if (c == 5) == (mem[off + 1] != 0) {
                seq![Op::Jump { target: mem[off + 2] }]
            } else {
                Seq::empty()
            }
        } else {
            seq![Op::Branch { nonzero: c == 5, addr: mem[off + 1], target: mem[off + 2] }]
        }
    } else if c == 7 || c == 8 {
        seq![
            Op::Load(operand_for(m1, mem[off + 1])),
            Op::CmpSet { less: c == 7, src: operand_for(m2, mem[off + 2]) },
            Op::Store { addr: mem[off + 3] },
        ]
    } else if c == 99 {
        seq![Op::Ret]
    } else {
        Seq::empty()
    }
}

/// Translate the one instruction at `offset`: append the operations it emits
/// and return the offset of the next instruction.
pub fn translate(mem: &Vec<i64>, offset: usize, ops: &mut Vec<Op<i64>>) -> (r: Result<
    usize,
    CompileError,
>)
    requires
        offset < mem@.len(),
    ensures
        match r {
            Ok(next) => {
                &&& emit_ok(mem@, offset as int)
                &&& final(ops)@ == old(ops)@ + emit_of(mem@, offset as int)
                &&& next == offset + inst_len(opcode_of(mem@[offset as int] as int))
                &&& offset < next <= mem@.len()
            },
            Err(e) => {
                &&& !emit_ok(mem@, offset as int)
                &&& e == emit_err(mem@, offset as int)
                &&& final(ops)@ == old(ops)@
            },
        },
{
    let n = mem.len();
    let inst = mem[offset];
    let (opcode, mode1, mode2) = decode(inst);
    if opcode == 1 || opcode == 2 || opcode == 7 || opcode == 8 {
        if n - offset < 4 {
            return Err(CompileError::TruncatedInstruction);
        }
        ops.push(Op::Load(operand(mode1, mem[offset + 1])));
        let second = operand(mode2, mem[offset + 2]);
        if opcode == 1 {
            ops.push(Op::Add(second));
        } else if opcode == 2 {
            ops.push(Op::Mul(second));
        } else {
            ops.push(Op::CmpSet { less: opcode == 7, src: second });
        }
        ops.push(Op::Store { addr: mem[offset + 3] });
        assert(ops@ =~= old(ops)@ + emit_of(mem@, offset as int));
        Ok(offset + 4)
    } else if opcode == 3 {
        if n - offset < 2 {
            return Err(CompileError::TruncatedInstruction);
        }
        ops.push(Op::StoreInput { addr: mem[offset + 1] });
        assert(ops@ =~= old(ops)@ + emit_of(mem@, offset as int));
        Ok(offset + 2)
    } else if opcode == 4 {
        if n - offset < 2 {
            return Err(CompileError::TruncatedInstruction);
        }
        ops.push(Op::Output(operand(mode1, mem[offset + 1])));
        assert(ops@ =~= old(ops)@ + emit_of(mem@, offset as int));
        Ok(offset + 2)
    } else if opcode == 5 || opcode == 6 {
        if mode2 == Mode::Position {
            return Err(CompileError::IndirectJump);
        }
        if n - offset < 3 {
            return Err(CompileError::TruncatedInstruction);
        }
        if mode1 == Mode::Position {
            ops.push(
                Op::Branch {
                    nonzero: opcode == 5,
                    addr: mem[offset + 1],
                    target: mem[offset + 2],
                },
            );
        } else {
            // The branch condition is a compile-time constant: fold it.
            if (opcode == 5) == (mem[offset + 1] != 0) {
                ops.push(Op::Jump { target: mem[offset + 2] });
            }
        }
        assert(ops@ =~= old(ops)@ + emit_of(mem@, offset as int));
        Ok(offset + 3)
    } else if opcode == 99 {
        ops.push(Op::Ret);
        assert(ops@ =~= old(ops)@ + emit_of(mem@, offset as int));
        Ok(offset + 1)
    } else {
        // An unrecognized opcode is a hole: skip one word, emit nothing.
        assert(ops@ =~= old(ops)@ + emit_of(mem@, offset as int));
        Ok(offset + 1)
    }
}

/// The result of the emission pass from one offset to the end of memory: the
/// operations emitted, and the label table mapping each visited instruction
/// offset to the operation index its label is bound to.
pub ghost struct TransOut {
    pub ops: Seq<Op<i64>>,
    pub binds: Map<int, int>,
}

/// The emission pass from `off` to the end of memory, binding the label of
/// each visited offset at the index of the next operation emitted, starting
/// from index `base`.
pub open spec fn translate_from(mem: Seq<i64>, off: int, base: int) -> Result<
    TransOut,
    CompileError,
>
    decreases mem.len() - off,
{
    if off >= mem.len() {
        Ok(TransOut { ops: Seq::empty(), binds: Map::empty() })
    } else if !emit_ok(mem, off) {
        Err(emit_err(mem, off))
    } else {
        let e = emit_of(mem, off);
        match translate_from(mem, off + inst_len(opcode_of(mem[off] as int)), base + e.len()) {
            Ok(rest) => Ok(TransOut { ops: e + rest.ops, binds: rest.binds.insert(off, base) }),
            Err(err) => Err(err),
        }
    }
}

/// Every label the pass binds belongs to an offset it visited, and is bound
/// within the range of operation indices the pass emitted.
pub proof fn lemma_translate_from_binds(mem: Seq<i64>, off: int, base: int)
    ensures
        translate_from(mem, off, base) matches Ok(t) ==> {
            &&& forall|o: int| #[trigger] t.binds.contains_key(o) ==> off <= o < mem.len()
            &&& forall|o: int|
                #[trigger] t.binds.contains_key(o) ==> base <= t.binds[o] <= base + t.ops.len()
        },
    decreases mem.len() - off,
{
    if off >= mem.len() {
    } else if !emit_ok(mem, off) {
    } else {
        let e = emit_of(mem, off);
        lemma_translate_from_binds(mem, off + inst_len(opcode_of(mem[off] as int)), base + e.len());
    }
}

/// The main pass: visit every offset from 0 in program order, bind its label
/// at the current emission position, and translate it. Returns the emitted
/// operations and the label table (one entry per visited offset).
pub fn translate_all(mem: &Vec<i64>) -> (r: Result<
    (Vec<Op<i64>>, Vec<Option<usize>>),
    CompileError,
>)
    ensures
        match r {
            Ok(p) => {
                &&& translate_from(mem@, 0, 0) matches Ok(t) && p.0@ == t.ops && p.1@.len()
                    == mem@.len() && (forall|o: int|
                    0 <= o < mem@.len() ==> #[trigger] p.1@[o] == (if t.binds.contains_key(o) {
                        Some(t.binds[o] as usize)
                    } else {
                        None::<usize>
                    }))
            },
            Err(e) => translate_from(mem@, 0, 0) == Err::<TransOut, CompileError>(e),
        },
{
    let n = mem.len();
    let mut ops: Vec<Op<i64>> = Vec::new();
    let mut bound: Vec<Option<usize>> = vec![None; n];
    let mut off: usize = 0;
    proof {
        lemma_translate_from_binds(mem@, 0, 0);
        match translate_from(mem@, 0, 0) {
            Ok(t) => {
                assert(t.ops =~= Seq::<Op<i64>>::empty() + t.ops);
            },
            Err(_) => {},
        }
    }
    while off < n
        invariant
            n == mem@.len(),
            off <= n,
            bound@.len() == n,
            translate_from(mem@, off as int, ops@.len() as int) matches Ok(rest) ==> {
                &&& translate_from(mem@, 0, 0) matches Ok(t)
                &&& t.ops == ops@ + rest.ops
                &&& forall|o: int|
                    #[trigger] rest.binds.contains_key(o) <==> (t.binds.contains_key(o) && off <= o)
                &&& forall|o: int|
                    rest.binds.contains_key(o) ==> #[trigger] rest.binds[o] == t.binds[o]
            },
            translate_from(mem@, off as int, ops@.len() as int) matches Err(e) ==> translate_from(
                mem@,
                0,
                0,
            ) == Err::<TransOut, CompileError>(e),
            translate_from(mem@, 0, 0) matches Ok(t) ==> forall|o: int|
                0 <= o < n ==> #[trigger] bound@[o] == (if t.binds.contains_key(o) && o < off {
                    Some(t.binds[o] as usize)
                } else {
                    None::<usize>
                }),
        decreases n - off,
    {
        let ghost pre_ops = ops@;
        let ghost pre_bound = bound@;
        let cur = ops.len();
        bound[off] = Some(cur);
        let stepped = translate(mem, off, &mut ops);
        match stepped {
            Ok(next) => {
                proof {
                    let e = emit_of(mem@, off as int);
                    let base = pre_ops.len() as int;
                    lemma_translate_from_binds(mem@, next as int, base + e.len());
                    assert(ops@ =~= pre_ops + e);
                    let suffix_old = translate_from(mem@, off as int, base);
                    let suffix_new = translate_from(mem@, next as int, base + e.len());
                    match suffix_new {
                        Ok(rest2) => {
                            // one unfolding of the pass at `off`
                            assert(suffix_old matches Ok(rest) && rest.ops == e + rest2.ops
                                && rest.binds == rest2.binds.insert(off as int, base));
                            let rest = suffix_old->Ok_0;
                            let t = translate_from(mem@, 0, 0)->Ok_0;
                            assert(translate_from(mem@, 0, 0) matches Ok(tt));
                            assert(t.ops =~= ops@ + rest2.ops);
                            assert forall|o: int| #[trigger] rest2.binds.contains_key(o) implies
                                t.binds.contains_key(o) && next <= o && rest2.binds[o]
                                == t.binds[o] by {
                                assert(next <= o < mem@.len());
                                assert(o != off as int);
                                assert(rest.binds.contains_key(o));
                                assert(rest.binds[o] == rest2.binds[o]);
                                assert(t.binds.contains_key(o) && rest.binds[o] == t.binds[o]);
                            }
                            assert forall|o: int|
                                t.binds.contains_key(o) && next <= o implies #[trigger] rest2
                                .binds
                                .contains_key(o) by {
                                assert(rest.binds.contains_key(o));
                                assert(o != off);
                            }
                            assert(rest.binds.contains_key(off as int) && rest.binds[off as int]
                                == base);
                            assert(t.binds.contains_key(off as int) && t.binds[off as int]
                                == base);
                            assert forall|o: int| 0 <= o < n implies #[trigger] bound@[o] == (
                            if t.binds.contains_key(o) && o < next as int {
                                Some(t.binds[o] as usize)
                            } else {
                                None::<usize>
                            }) by {
                                if o != off as int {
                                    assert(bound@[o] == pre_bound[o]);
                                    if t.binds.contains_key(o) && (off as int) < o && o
                                        < (next as int) {
                                        assert(rest.binds.contains_key(o));
                                        assert(rest2.binds.contains_key(o));
                                        assert(false);
                                    }
                                }
                            }
                        },
                        Err(_) => {
                            assert(suffix_old == suffix_new);
                        },
                    }
                }
                off = next;
            },
            Err(e) => {
                proof {
                    assert(translate_from(mem@, off as int, pre_ops.len() as int) == Err::<
                        TransOut,
                        CompileError,
                    >(e));
                }
                return Err(e);
            },
        }
    }
    proof {
        assert(translate_from(mem@, off as int, ops@.len() as int) matches Ok(rest) && rest.ops
            =~= Seq::<Op<i64>>::empty());
        let t = translate_from(mem@, 0, 0)->Ok_0;
        assert(t.ops =~= ops@);
    }
    Ok((ops, bound))
}

} // verus!
