use intcode_jit::compile_text;

const FUEL: u64 = 1_000_000;

fn run(text: &str, input: i64) -> i64 {
    let mut art = compile_text(text.as_bytes()).ok().unwrap();
    art.run(input, FUEL).ok().unwrap()
}

#[test]
fn test_output() {
    assert_eq!(run("4,2,99", 0), 99); // pos
    assert_eq!(run("104,100,99", 0), 100); // imm
}

#[test]
fn test_input() {
    assert_eq!(run("3,0,4,0,99", -1234), -1234);
    assert_eq!(run("3,5,4,5,99,0", -1234), -1234);
}

#[test]
fn test_add() {
    // -4 + -4 = -8
    assert_eq!(run("3,0,1,0,0,1,4,1,99", -4), -8); // pos, pos
    // 10 + -5 = 5
    assert_eq!(run("3,0,1101,10,-5,1,4,1,99", 0), 5); // imm, imm
    // 10 + -5 = 5
    assert_eq!(run("3,0,1001,0,-5,1,4,1,99", 10), 5); // pos, imm
    // -5 + 10 = 5
    assert_eq!(run("3,0,101,-5,0,1,4,1,99", 10), 5); // imm, pos
}

#[test]
fn test_mul() {
    // -4 * -4 = 16
    assert_eq!(run("3,0,2,0,0,1,4,1,99", -4), 16); // pos, pos
    // 10 * -5 = -50
    assert_eq!(run("3,0,1102,10,-5,1,4,1,99", 0), -50); // imm, imm
    // 10 * -5 = -50
    assert_eq!(run("3,0,1002,0,-5,1,4,1,99", 10), -50); // pos, imm
    // -5 * 10 = -50
    assert_eq!(run("3,0,102,-5,0,1,4,1,99", 10), -50); // imm, pos
}

#[test]
fn test_jump() {
    // jnz
    assert_eq!(run("104,1,1105,1,7,104,100,99", 0), 1); // imm, imm
    assert_eq!(run("104,1,1105,0,7,104,100,99", 0), 100); // imm, imm
    assert_eq!(run("104,1,1005,1,7,104,100,99", 0), 1); // pos, imm
    assert_eq!(run("104,0,1005,1,7,104,100,99", 0), 100); // pos, imm

    // jz
    assert_eq!(run("104,1,1106,1,7,104,100,99", 0), 100); // imm, imm
    assert_eq!(run("104,1,1106,0,7,104,100,99", 0), 1); // imm, imm
    assert_eq!(run("104,1,1006,1,7,104,100,99", 0), 100); // pos, imm
    assert_eq!(run("104,0,1006,1,7,104,100,99", 0), 0); // pos, imm
}

#[test]
fn test_comparisons() {
    // cmp_less_than
    assert_eq!(run("1107,1,1,0,4,0,99", 0), 0); // imm, imm
    assert_eq!(run("1107,0,-1,0,4,0,99", 0), 0); // imm, imm
    assert_eq!(run("1107,1,2,0,4,0,99", 0), 1); // imm, imm
    assert_eq!(run("1107,-1,0,0,4,0,99", 0), 1); // imm, imm
    assert_eq!(run("7,7,8,0,4,0,99,98,99", 0), 1); // pos, pos
    assert_eq!(run("7,7,8,0,4,0,99,99,99", 0), 0); // pos, pos
    assert_eq!(run("1007,7,99,0,4,0,99,98", 0), 1); // pos, imm
    assert_eq!(run("1007,7,99,0,4,0,99,99", 0), 0); // pos, imm
    assert_eq!(run("107,98,7,0,4,0,99,99", 0), 1); // imm, pos
    assert_eq!(run("107,99,7,0,4,0,99,99", 0), 0); // imm, pos

    // cmp_equals
    assert_eq!(run("1108,1,1,0,4,0,99", 0), 1); // imm, imm
    assert_eq!(run("1108,1,2,0,4,0,99", 0), 0); // imm, imm
    assert_eq!(run("8,7,8,0,4,0,99,99,99", 0), 1); // pos, pos
    assert_eq!(run("8,7,8,0,4,0,99,99,999", 0), 0); // pos, pos
    assert_eq!(run("1008,7,99,0,4,0,99,99", 0), 1); // pos, imm
    assert_eq!(run("1008,7,98,0,4,0,99,99", 0), 0); // pos, imm
    assert_eq!(run("108,99,7,0,4,0,99,99", 0), 1); // imm, pos
    assert_eq!(run("108,98,7,0,4,0,99,99", 0), 0); // imm, pos
}

fn fib_rust(n: i64) -> i64 {
    if n <= 2 {
        return 1;
    }
    let mut prev2: i64 = 1;
    let mut prev1: i64 = 1;
    let mut result: i64 = 2;
    for _ in 2..n {
        result = prev1.wrapping_add(prev2);
        prev2 = prev1;
        prev1 = result;
    }
    result
}

#[test]
fn fibonacci() {
    /*
         0: add 0, 0, [0]           ; scratch space: 0: n, 1: prev2, 2: prev1, 3: result
         4: add 0, 0, [0]           ; scratch space: 4: cnt, 5: condition_tmp
         8: input [0]
        10: less_than [0], 3, [5]   ; if n <= 2 {
        14: jump_zero [5], 20
        17: output 1                ; return 1;
        19: halt                    ; }
        20: add 0, 1, [1]           ; prev2 = 1
        24: add 0, 1, [2]           ; prev1 = 1
        28: add 0, 1, [3]           ; result = 1
        32: add 0, 2, [4]           ; cnt = 2
        36: equals [4], [0], [5]    ; if cnt == n {
        40: jump_zero [5], 46
        43: output [3]              ; return result
        45: halt                    ; }
        46: add [1], [2], [3]       ; result = prev2 + prev1
        50: add [2], 0, [1]         ; prev2 = prev1
        54: add [3], 0, [2]         ; prev1 = result
        58: add [4], 1, [4]         ; count++
        52: jump_zero 0, 36         ; goto 36
    */
    let fib_intcode = "
        1101,0,0,0,
        1101,0,0,0,
        3,0,
        1007,0,3,5,
        1006,5,20,
        104,1,99,
        1101,0,1,1,
        1101,0,1,2,
        1101,0,1,3,
        1101,0,2,4,
        8,4,0,5,
        1006,5,46,
        4,3,99,
        1,1,2,3,
        1001,2,0,1,
        1001,3,0,2,
        1001,4,1,4,
        1106,0,36
    ";
    for i in 0..100 {
        assert_eq!(run(fib_intcode, i), fib_rust(i))
    }
}
