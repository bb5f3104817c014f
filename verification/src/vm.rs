//! The compiled artifact and the reference executor for finalized
//! operations.
//!
//! The operation machine has an accumulator, an output register, the one
//! scalar input, and the program memory the artifact closes over. The
//! semantics of one operation is the spec function [`step`]; a whole run is
//! [`run_from`], bounded by a step budget since Intcode programs can loop
//! forever. The executor is verified to follow this semantics exactly.

use vstd::prelude::*;

verus! {

use crate::ir::{op_target, Op, Operand};

/// Why one execution run stopped without reaching a return.
#[derive(Clone, Copy, PartialEq, Eq, Structural, Debug)]
pub enum ExecError {
    /// The step budget was exhausted before the routine returned.
    OutOfFuel,
    /// An operation named a memory address outside the program memory, or
    /// control reached a code position outside the operations.
    AddressFault,
}

/// The machine state between two operations.
pub ghost struct VmState {
    pub mem: Seq<i64>,
    pub ip: int,
    pub acc: i64,
    pub out: i64,
}

/// The effect of one operation on the state.
pub ghost enum StepOut {
    Next(VmState),
    Done { ret: i64, mem: Seq<i64> },
    Fault { mem: Seq<i64> },
}

/// The value of an operand: the literal itself, or the word at its address
/// when that address lies within memory.
pub open spec fn operand_value(mem: Seq<i64>, p: Operand) -> Option<i64> {
    match p {
        Operand::Imm(v) => Some(v),
        Operand::Mem(a) => if 0 <= a < mem.len() {
            Some(mem[a as int])
        } else {
            None
        },
    }
}

/// The entry state: control at the first operation, both registers zero.
/// The output register starts at zero, so a routine that executes no output
/// operation returns zero.
pub open spec fn init_state(mem: Seq<i64>) -> VmState {
    VmState { mem, ip: 0, acc: 0, out: 0 }
}

/// The effect of the operation at `s.ip`, for `0 <= s.ip < ops.len()`.
/// Addition and multiplication wrap on signed 64-bit overflow.
pub open spec fn step(ops: Seq<Op<usize>>, input: i64, s: VmState) -> StepOut {
    match ops[s.ip] {
        Op::Load(p) => match operand_value(s.mem, p) {
            Some(v) => StepOut::Next(VmState { acc: v, ip: s.ip + 1, ..s }),
            None => StepOut::Fault { mem: s.mem },
        },
        Op::Add(p) => match operand_value(s.mem, p) {
            Some(v) => StepOut::Next(VmState { acc: s.acc.wrapping_add(v), ip: s.ip + 1, ..s }),
            None => StepOut::Fault { mem: s.mem },
        },
        Op::Mul(p) => match operand_value(s.mem, p) {
            Some(v) => StepOut::Next(VmState { acc: s.acc.wrapping_mul(v), ip: s.ip + 1, ..s }),
            None => StepOut::Fault { mem: s.mem },
        },
        Op::CmpSet { less, src } => match operand_value(s.mem, src) {
            Some(v) => {
                let hit = if less {
                    s.acc < v
                } else {
                    s.acc == v
                };
                StepOut::Next(VmState { acc: if hit { 1 } else { 0 }, ip: s.ip + 1, ..s })
            },
            None => StepOut::Fault { mem: s.mem },
        },
        Op::Store { addr } => if 0 <= addr < s.mem.len() {
            StepOut::Next(VmState { mem: s.mem.update(addr as int, s.acc), ip: s.ip + 1, ..s })
        } else {
            StepOut::Fault { mem: s.mem }
        },
        Op::StoreInput { addr } => if 0 <= addr < s.mem.len() {
            StepOut::Next(VmState { mem: s.mem.update(addr as int, input), ip: s.ip + 1, ..s })
        } else {
            StepOut::Fault { mem: s.mem }
        },
        Op::Output(p) => match operand_value(s.mem, p) {
            Some(v) => StepOut::Next(VmState { out: v, ip: s.ip + 1, ..s }),
            None => StepOut::Fault { mem: s.mem },
        },
        Op::Branch { nonzero, addr, target } => if 0 <= addr < s.mem.len() {
            StepOut::Next(
                VmState {
                    ip: if (s.mem[addr as int] != 0) == nonzero {
                        target as int
                    } else {
                        s.ip + 1
                    },
                    ..s
                },
            )
        } else {
            StepOut::Fault { mem: s.mem }
        },
        Op::Jump { target } => StepOut::Next(VmState { ip: target as int, ..s }),
        Op::Ret => StepOut::Done { ret: s.out, mem: s.mem },
    }
}

/// The outcome of a run: the routine's result, and the memory it leaves
/// behind.
pub ghost struct RunOut {
    pub result: Result<i64, ExecError>,
    pub mem: Seq<i64>,
}

/// Execution from a state, within a step budget.
pub open spec fn run_from(ops: Seq<Op<usize>>, input: i64, s: VmState, fuel: nat) -> RunOut
    decreases fuel,
{
    if fuel == 0 {
        RunOut { result: Err(ExecError::OutOfFuel), mem: s.mem }
    } else if !(0 <= s.ip < ops.len()) {
        RunOut { result: Err(ExecError::AddressFault), mem: s.mem }
    } else {
        match step(ops, input, s) {
            StepOut::Next(s2) => run_from(ops, input, s2, (fuel - 1) as nat),
            StepOut::Done { ret, mem } => RunOut { result: Ok(ret), mem },
            StepOut::Fault { mem } => RunOut { result: Err(ExecError::AddressFault), mem },
        }
    }
}

/// Read one operand against the current memory.
fn operand_read(mem: &Vec<i64>, p: Operand) -> (r: Option<i64>)
    ensures
        r == operand_value(mem@, p),
{
    match p {
        Operand::Imm(v) => Some(v),
        Operand::Mem(a) => {
            if a >= 0 && (a as u64) < (mem.len() as u64) {
                Some(mem[a as usize])
            } else {
                None
            }
        },
    }
}

/// Check a store address against the current memory.
fn addr_check(mem: &Vec<i64>, a: i64) -> (r: Option<usize>)
    ensures
        r matches Some(j) ==> 0 <= a && j as int == a as int && (a as int) < mem@.len(),
        r is None ==> !(0 <= a && (a as int) < mem@.len()),
{
    if a >= 0 && (a as u64) < (mem.len() as u64) {
        Some(a as usize)
    } else {
        None
    }
}

/// The immutable product of one compilation: the finalized operations and
/// the program memory the routine closes over.
///
/// The artifact reuses the same memory across repeated invocations: a second
/// run executes against memory already mutated by the first, not against a
/// fresh copy. A caller that needs repeatable runs must compile a fresh
/// artifact, or reset the memory, per run.
pub struct Artifact {
    /// The finalized operations; entry is at index 0.
    pub ops: Vec<Op<usize>>,
    /// The program memory buffer, shared with the running routine.
    pub mem: Vec<i64>,
}

impl Artifact {
    /// A finalized artifact: non-empty code whose last operation is a
    /// return (the implicit terminator appended for programs lacking one),
    /// with every jump target resolved to an operation index within the
    /// code.
    pub open spec fn wf(self) -> bool {
        &&& self.ops@.len() > 0
        &&& self.ops@.last() == Op::<usize>::Ret
        &&& forall|i: int|
            0 <= i < self.ops@.len() ==> (#[trigger] op_target(self.ops@[i]) matches Some(t) ==> (
            t as int) < self.ops@.len())
    }

    /// Run the routine once with one scalar input, within a step budget.
    ///
    /// Returns what the semantics returns: the value of the last executed
    /// output operation (zero if none executed) once a return is reached,
    /// or the error the semantics gives to this budget and memory. The
    /// artifact's memory is left exactly as the semantics leaves it.
    pub fn run(&mut self, input: i64, fuel: u64) -> (r: Result<i64, ExecError>)
        ensures
            ({
                let o = run_from(old(self).ops@, input, init_state(old(self).mem@), fuel as nat);
                &&& final(self).ops@ == old(self).ops@
                &&& r == o.result
                &&& final(self).mem@ == o.mem
            }),
    {
        let ghost ops0 = self.ops@;
        let ghost m0 = self.mem@;
        let mut ip: usize = 0;
        let mut acc: i64 = 0;
        let mut out: i64 = 0;
        let mut left: u64 = fuel;
        loop
            invariant
                ops0 == old(self).ops@,
                m0 == old(self).mem@,
                self.ops@ == ops0,
                left <= fuel,
                run_from(ops0, input, init_state(m0), fuel as nat) == run_from(
                    ops0,
                    input,
                    VmState { mem: self.mem@, ip: ip as int, acc, out },
                    left as nat,
                ),
            decreases left,
        {
            let ghost pre = VmState { mem: self.mem@, ip: ip as int, acc, out };
            if left == 0 {
                proof {
                    assert(run_from(ops0, input, pre, left as nat) == RunOut {
                        result: Err::<i64, ExecError>(ExecError::OutOfFuel),
                        mem: pre.mem,
                    });
                }
                return Err(ExecError::OutOfFuel);
            }
            if ip >= self.ops.len() {
                proof {
                    assert(run_from(ops0, input, pre, left as nat) == RunOut {
                        result: Err::<i64, ExecError>(ExecError::AddressFault),
                        mem: pre.mem,
                    });
                }
                return Err(ExecError::AddressFault);
            }
            let op = self.ops[ip];
            left = left - 1;
            match op {
                Op::Load(p) => {
                    match operand_read(&self.mem, p) {
                        Some(v) => {
                            acc = v;
                            ip = ip + 1;
                        },
                        None => {
                            proof {
                                assert(step(ops0, input, pre) == StepOut::Fault { mem: pre.mem });
                                assert(run_from(ops0, input, pre, (left + 1) as nat) == RunOut {
                                    result: Err::<i64, ExecError>(ExecError::AddressFault),
                                    mem: pre.mem,
                                });
                            }
                            return Err(ExecError::AddressFault);
                        },
                    }
                },
                Op::Add(p) => {
                    match operand_read(&self.mem, p) {
                        Some(v) => {
                            acc = acc.wrapping_add(v);
                            ip = ip + 1;
                        },
                        None => {
                            proof {
                                assert(step(ops0, input, pre) == StepOut::Fault { mem: pre.mem });
                                assert(run_from(ops0, input, pre, (left + 1) as nat) == RunOut {
                                    result: Err::<i64, ExecError>(ExecError::AddressFault),
                                    mem: pre.mem,
                                });
                            }
                            return Err(ExecError::AddressFault);
                        },
                    }
                },
                Op::Mul(p) => {
                    match operand_read(&self.mem, p) {
                        Some(v) => {
                            acc = acc.wrapping_mul(v);
                            ip = ip + 1;
                        },
                        None => {
                            proof {
                                assert(step(ops0, input, pre) == StepOut::Fault { mem: pre.mem });
                                assert(run_from(ops0, input, pre, (left + 1) as nat) == RunOut {
                                    result: Err::<i64, ExecError>(ExecError::AddressFault),
                                    mem: pre.mem,
                                });
                            }
                            return Err(ExecError::AddressFault);
                        },
                    }
                },
                Op::CmpSet { less, src } => {
                    match operand_read(&self.mem, src) {
                        Some(v) => {
                            let hit = if less {
                                acc < v
                            } else {
                                acc == v
                            };
                            acc = if hit {
                                1
                            } else {
                                0
                            };
                            ip = ip + 1;
                        },
                        None => {
                            proof {
                                assert(step(ops0, input, pre) == StepOut::Fault { mem: pre.mem });
                                assert(run_from(ops0, input, pre, (left + 1) as nat) == RunOut {
                                    result: Err::<i64, ExecError>(ExecError::AddressFault),
                                    mem: pre.mem,
                                });
                            }
                            return Err(ExecError::AddressFault);
                        },
                    }
                },
                Op::Store { addr } => {
                    match addr_check(&self.mem, addr) {
                        Some(j) => {
                            self.mem[j] = acc;
                            ip = ip + 1;
                        },
                        None => {
                            proof {
                                assert(step(ops0, input, pre) == StepOut::Fault { mem: pre.mem });
                                assert(run_from(ops0, input, pre, (left + 1) as nat) == RunOut {
                                    result: Err::<i64, ExecError>(ExecError::AddressFault),
                                    mem: pre.mem,
                                });
                            }
                            return Err(ExecError::AddressFault);
                        },
                    }
                },
                Op::StoreInput { addr } => {
                    match addr_check(&self.mem, addr) {
                        Some(j) => {
                            self.mem[j] = input;
                            ip = ip + 1;
                        },
                        None => {
                            proof {
                                assert(step(ops0, input, pre) == StepOut::Fault { mem: pre.mem });
                                assert(run_from(ops0, input, pre, (left + 1) as nat) == RunOut {
                                    result: Err::<i64, ExecError>(ExecError::AddressFault),
                                    mem: pre.mem,
                                });
                            }
                            return Err(ExecError::AddressFault);
                        },
                    }
                },
                Op::Output(p) => {
                    match operand_read(&self.mem, p) {
                        Some(v) => {
                            out = v;
                            ip = ip + 1;
                        },
                        None => {
                            proof {
                                assert(step(ops0, input, pre) == StepOut::Fault { mem: pre.mem });
                                assert(run_from(ops0, input, pre, (left + 1) as nat) == RunOut {
                                    result: Err::<i64, ExecError>(ExecError::AddressFault),
                                    mem: pre.mem,
                                });
                            }
                            return Err(ExecError::AddressFault);
                        },
                    }
                },
                Op::Branch { nonzero, addr, target } => {
                    match addr_check(&self.mem, addr) {
                        Some(j) => {
                            let v = self.mem[j];
                            ip = if (v != 0) == nonzero {
                                target
                            } else {
                                ip + 1
                            };
                        },
                        None => {
                            proof {
                                assert(step(ops0, input, pre) == StepOut::Fault { mem: pre.mem });
                                assert(run_from(ops0, input, pre, (left + 1) as nat) == RunOut {
                                    result: Err::<i64, ExecError>(ExecError::AddressFault),
                                    mem: pre.mem,
                                });
                            }
                            return Err(ExecError::AddressFault);
                        },
                    }
                },
                Op::Jump { target } => {
                    ip = target;
                },
                Op::Ret => {
                    proof {
                        assert(step(ops0, input, pre) == StepOut::Done { ret: out, mem: pre.mem });
                        assert(run_from(ops0, input, pre, (left + 1) as nat) == RunOut {
                            result: Ok::<i64, ExecError>(out),
                            mem: pre.mem,
                        });
                    }
                    return Ok(out);
                },
            }
            proof {
                let cur = VmState { mem: self.mem@, ip: ip as int, acc, out };
                assert(step(ops0, input, pre) == StepOut::Next(cur));
                assert(run_from(ops0, input, pre, (left + 1) as nat) == run_from(
                    ops0,
                    input,
                    cur,
                    left as nat,
                ));
            }
        }
    }
}

} // verus!
