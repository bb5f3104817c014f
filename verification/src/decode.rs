//! Instruction decoding: extracting the opcode and the parameter-mode digits
//! from one encoded 64-bit word.

use vstd::prelude::*;

verus! {

/// How an operand word of an instruction is interpreted.
#[derive(Clone, Copy, PartialEq, Eq, Structural, Debug)]
pub enum Mode {
    /// The operand is a memory address to dereference.
    Position,
    /// The operand is a literal value.
    Immediate,
}

/// Truncating remainder on mathematical integers, for a positive divisor:
/// the semantics of `%` on signed machine integers.
pub open spec fn trunc_rem(a: int, b: int) -> int {
    if a >= 0 {
        a % b
    } else {
        -((-a) % b)
    }
}

/// Truncating quotient on mathematical integers, for a positive divisor:
/// the semantics of `/` on signed machine integers.
pub open spec fn trunc_div(a: int, b: int) -> int {
    if a >= 0 {
        a / b
    } else {
        -((-a) / b)
    }
}

/// The opcode encoded by a word: its value modulo 100, with the word's sign.
/// A negative word therefore never yields a recognized opcode.
pub open spec fn opcode_of(w: int) -> int {
    trunc_rem(w, 100)
}

/// A mode digit of 1 selects Immediate; any other digit, including the
/// digits of a negative word, is treated defensively as Position.
pub open spec fn digit_mode(d: int) -> Mode {
    if d == 1 {
        Mode::Immediate
    } else {
        Mode::Position
    }
}

/// The mode of the first operand: decoded from the hundreds digit.
pub open spec fn mode1_of(w: int) -> Mode {
    digit_mode(trunc_rem(trunc_div(w, 100), 10))
}

/// The mode of the second operand: decoded from the thousands digit.
pub open spec fn mode2_of(w: int) -> Mode {
    digit_mode(trunc_rem(trunc_div(w, 1000), 10))
}

/// Decode one encoded word into its opcode and its two parameter modes.
/// No opcode range is validated: an unrecognized opcode is a legal decode
/// result, which the translator treats as a one-word hole.
pub fn decode(w: i64) -> (r: (i64, Mode, Mode))
    ensures
        r.0 == opcode_of(w as int),
        r.1 == mode1_of(w as int),
        r.2 == mode2_of(w as int),
{
    let opcode = w % 100;
    let m1 = if w / 100 % 10 == 1 {
        Mode::Immediate
    } else {
        Mode::Position
    };
    let m2 = if w / 1000 % 10 == 1 {
        Mode::Immediate
    } else {
        Mode::Position
    };
    (opcode, m1, m2)
}

} // verus!
