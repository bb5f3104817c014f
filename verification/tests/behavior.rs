use intcode_jit::compile_text;
use intcode_jit::translate::CompileError;
use intcode_jit::vm::ExecError;

const FUEL: u64 = 1_000_000;

fn run(text: &str, input: i64) -> i64 {
    let mut art = compile_text(text.as_bytes()).ok().unwrap();
    art.run(input, FUEL).ok().unwrap()
}

fn compile_err(text: &str) -> CompileError {
    compile_text(text.as_bytes()).err().unwrap()
}

#[test]
fn determinism_across_compilations() {
    let text = "3,0,1,0,0,1,4,1,99";
    let mut a1 = compile_text(text.as_bytes()).ok().unwrap();
    let mut a2 = compile_text(text.as_bytes()).ok().unwrap();
    let r1 = a1.run(21, FUEL).ok().unwrap();
    let r2 = a2.run(21, FUEL).ok().unwrap();
    assert_eq!(r1, r2);
    assert_eq!(r1, 42);
}

#[test]
fn hole_tolerance_skips_one_word_each() {
    // Holes (0, 98, -5) interleaved with valid instructions: each consumes
    // exactly one word and emits nothing.
    assert_eq!(run("104,5,0,98,0,99", 0), 5);
    assert_eq!(run("-5,104,3,99", 0), 3);
    // A jump over holes lands on the instruction after them.
    assert_eq!(run("1105,1,5,0,0,104,9,99", 0), 9);
}

#[test]
fn halt_returns_zero_without_output() {
    assert_eq!(run("99", 0), 0);
    assert_eq!(run("1101,2,3,0,99", 7), 0);
}

#[test]
fn implicit_return_without_halt() {
    // No opcode 99: the appended final return still hands control back.
    assert_eq!(run("104,7", 0), 7);
    // A jump to the offset just past the last instruction's start lands on
    // the label of a trailing hole, right before the implicit return.
    assert_eq!(run("1105,1,3,0", 0), 0);
}

#[test]
fn memory_is_reused_across_invocations() {
    let text = "1001,7,1,7,4,7,99,10";
    let mut art = compile_text(text.as_bytes()).ok().unwrap();
    assert_eq!(art.run(0, FUEL).ok().unwrap(), 11);
    assert_eq!(art.run(0, FUEL).ok().unwrap(), 12);
    assert_eq!(art.run(0, FUEL).ok().unwrap(), 13);
}

#[test]
fn defensive_mode_decoding() {
    // A mode digit other than 0 or 1 is treated as Position.
    assert_eq!(run("204,2,99", 0), 99);
    assert_eq!(run("9904,2,99", 0), 99);
}

#[test]
fn indirect_jump_is_rejected() {
    assert_eq!(compile_err("5,0,0"), CompileError::IndirectJump);
    assert_eq!(compile_err("6,1,2,99"), CompileError::IndirectJump);
    // Detected from the instruction word alone, even when memory also runs
    // short of the operand words.
    assert_eq!(compile_err("104,1,5"), CompileError::IndirectJump);
}

#[test]
fn truncated_instruction_is_rejected() {
    assert_eq!(compile_err("1,0,0"), CompileError::TruncatedInstruction);
    assert_eq!(compile_err("3"), CompileError::TruncatedInstruction);
    assert_eq!(compile_err("99,4"), CompileError::TruncatedInstruction);
    assert_eq!(compile_err("104,1,1105,1"), CompileError::TruncatedInstruction);
}

#[test]
fn unbound_jump_target_is_rejected() {
    // Offset 1 lies inside the jump instruction and is never visited.
    assert_eq!(compile_err("1105,1,1,99"), CompileError::UnboundJumpTarget);
    // Offsets past the end of memory are never bound.
    assert_eq!(compile_err("1105,1,3"), CompileError::UnboundJumpTarget);
    assert_eq!(compile_err("1106,0,100,99"), CompileError::UnboundJumpTarget);
    // A folded-away jump never references its target, so an unbound target
    // there is harmless: the condition 1 decides a jump-if-false is not
    // taken.
    assert!(compile_text(b"1106,1,100,99").is_ok());
    // Negative targets are never bound either.
    assert_eq!(compile_err("1105,1,-2,99"), CompileError::UnboundJumpTarget);
}

#[test]
fn malformed_text_is_rejected() {
    assert_eq!(compile_err("4,x,99"), CompileError::MalformedText);
    assert_eq!(compile_err(""), CompileError::MalformedText);
    assert_eq!(compile_err("1,,99"), CompileError::MalformedText);
    assert_eq!(compile_err("1 2,99"), CompileError::MalformedText);
    assert_eq!(compile_err("--4,99"), CompileError::MalformedText);
    // Out of the signed 64-bit range.
    assert_eq!(
        compile_err("9223372036854775808,99"),
        CompileError::MalformedText
    );
    assert_eq!(
        compile_err("-9223372036854775809,99"),
        CompileError::MalformedText
    );
}

#[test]
fn parser_accepts_signs_and_whitespace() {
    assert_eq!(run(" 4 , 2 ,\n99 ", 0), 99);
    assert_eq!(run("104,+5,99", 0), 5);
    assert_eq!(
        run("104,-9223372036854775808,99", 0),
        i64::MIN
    );
    assert_eq!(run("104,9223372036854775807,99", 0), i64::MAX);
}

#[test]
fn wrapping_arithmetic() {
    assert_eq!(
        run("1101,9223372036854775807,1,0,4,0,99", 0),
        i64::MIN
    );
    assert_eq!(
        run("1102,9223372036854775807,2,0,4,0,99", 0),
        -2
    );
}

#[test]
fn out_of_fuel_on_endless_loop() {
    let mut art = compile_text(b"1105,1,0,99").ok().unwrap();
    assert_eq!(art.run(0, 1000).err().unwrap(), ExecError::OutOfFuel);
}

#[test]
fn address_fault_on_bad_memory_access() {
    let mut art = compile_text(b"4,100,99").ok().unwrap();
    assert_eq!(art.run(0, FUEL).err().unwrap(), ExecError::AddressFault);
    let mut art2 = compile_text(b"3,-1,99").ok().unwrap();
    assert_eq!(art2.run(0, FUEL).err().unwrap(), ExecError::AddressFault);
}
