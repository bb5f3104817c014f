//! The intermediate operation representation.
//!
//! The translator turns each Intcode instruction into a short sequence of
//! these target-independent operations; a backend encodes each operation for
//! a concrete architecture. The operation machine has program memory (a flat
//! array of signed 64-bit words shared with the host), an accumulator, an
//! output register that holds the value the routine ultimately returns, and
//! read access to the one scalar input.
//!
//! The type parameter `T` is the representation of jump targets: during the
//! linear emission pass a target is the raw program word naming an
//! instruction offset (`i64`); finalization patches every target to the index
//! of the operation that the offset's label is bound to (`usize`).

use vstd::prelude::*;

verus! {

use crate::decode::Mode;

/// An operand after parameter-mode resolution.
#[derive(Clone, Copy, PartialEq, Eq, Structural, Debug)]
pub enum Operand {
    /// The word at this memory address. The address is carried as the raw
    /// program word; the executor faults on an address outside memory.
    Mem(i64),
    /// A literal value.
    Imm(i64),
}

/// One target-independent operation.
#[derive(Clone, Copy, PartialEq, Eq, Structural, Debug)]
pub enum Op<T> {
    /// accumulator = operand
    Load(Operand),
    /// accumulator = accumulator + operand, wrapping on overflow
    Add(Operand),
    /// accumulator = accumulator * operand, wrapping on overflow
    Mul(Operand),
    /// accumulator = 1 if the comparison with the operand holds, else 0;
    /// `less` selects signed less-than, otherwise equality
    CmpSet { less: bool, src: Operand },
    /// memory[addr] = accumulator
    Store { addr: i64 },
    /// memory[addr] = the input scalar
    StoreInput { addr: i64 },
    /// output register = operand
    Output(Operand),
    /// jump to `target` when memory[addr] is non-zero (`nonzero`) or zero
    Branch { nonzero: bool, addr: i64, target: T },
    /// unconditional jump to `target`
    Jump { target: T },
    /// stop; the routine returns the output register
    Ret,
}

/// Resolve one operand word under its parameter mode.
pub open spec fn operand_for(m: Mode, w: i64) -> Operand {
    match m {
        Mode::Position => Operand::Mem(w),
        Mode::Immediate => Operand::Imm(w),
    }
}

/// Executable counterpart of [`operand_for`].
pub fn operand(m: Mode, w: i64) -> (r: Operand)
    ensures
        r == operand_for(m, w),
{
    match m {
        Mode::Position => Operand::Mem(w),
        Mode::Immediate => Operand::Imm(w),
    }
}

/// The jump target an operation refers to, if any.
pub open spec fn op_target<T>(op: Op<T>) -> Option<T> {
    match op {
        Op::Branch { target, .. } => Some(target),
        Op::Jump { target } => Some(target),
        _ => None,
    }
}

} // verus!
