use tapejit::codegen::CodeGeneration;
use tapejit::interpreter::Interpreter;
use tapejit::state::State;
use tapejit::syntax::{ExecutionResult, Instruction};

const FUEL: u64 = 1_000_000;

fn interp(prog: &Vec<Instruction>, input: Vec<u8>) -> (ExecutionResult, Vec<u8>) {
    let (r, out) = Interpreter::new(30_000).interpret(prog, input, FUEL);
    (r.expect("program should halt within the test budget"), out)
}

fn compiled(prog: &Vec<Instruction>, input: Vec<u8>) -> (ExecutionResult, Vec<u8>) {
    let exe = CodeGeneration::x64().generate(prog, 0, 0);
    let mut st = State::new(30_000, input, usize::MAX);
    let r = exe.run(&mut st, FUEL);
    (r.expect("program should halt within the test budget"), st.output)
}

#[test]
fn write_sequence_outputs_bytes() {
    let prog = vec![
        Instruction::IncrementCell(72),
        Instruction::Write,
        Instruction::IncrementCell(1),
        Instruction::Write,
    ];
    let (r, out) = interp(&prog, vec![]);
    assert_eq!(r, ExecutionResult::Success);
    assert_eq!(out, vec![72, 73]);
}

#[test]
fn read_copies_input_to_output() {
    let prog = vec![Instruction::Read, Instruction::Write];
    let (r, out) = interp(&prog, vec![42]);
    assert_eq!(r, ExecutionResult::Success);
    assert_eq!(out, vec![42]);
}

#[test]
fn increment_wraps_modulo_256() {
    let prog = vec![
        Instruction::IncrementCell(-1),
        Instruction::Write,
    ];
    let (r, out) = interp(&prog, vec![]);
    assert_eq!(r, ExecutionResult::Success);
    assert_eq!(out, vec![255]);
}

#[test]
fn pointer_move_past_end_overflows() {
    // Tape size 30000, pointer at 29999, move +1: Overflow, and the
    // instructions after the move never execute.
    let prog = vec![
        Instruction::MovePointer(29_999),
        Instruction::MovePointer(1),
        Instruction::Write,
    ];
    let (r, out) = interp(&prog, vec![]);
    assert_eq!(r, ExecutionResult::Overflow);
    assert_eq!(out, vec![]);
    let (rc, outc) = compiled(&prog, vec![]);
    assert_eq!(rc, ExecutionResult::Overflow);
    assert_eq!(outc, vec![]);
}

#[test]
fn pointer_move_before_start_overflows() {
    let prog = vec![Instruction::MovePointer(-1)];
    let (r, _) = interp(&prog, vec![]);
    assert_eq!(r, ExecutionResult::Overflow);
    let (rc, _) = compiled(&prog, vec![]);
    assert_eq!(rc, ExecutionResult::Overflow);
}

#[test]
fn read_past_input_end_is_io_failure() {
    let prog = vec![Instruction::Read, Instruction::Write];
    let (r, out) = interp(&prog, vec![]);
    assert_eq!(r, ExecutionResult::IoFailure);
    assert_eq!(out, vec![]);
    let (rc, outc) = compiled(&prog, vec![]);
    assert_eq!(rc, ExecutionResult::IoFailure);
    assert_eq!(outc, vec![]);
}

#[test]
fn io_failure_inside_nested_loops_halts_everything() {
    // The failing read sits two loops deep; the failure propagates out through
    // every enclosing loop without executing further instructions.
    let prog = vec![
        Instruction::IncrementCell(1),
        Instruction::Loop(vec![Instruction::Loop(vec![Instruction::Read])]),
        Instruction::Write,
    ];
    let (r, out) = interp(&prog, vec![]);
    assert_eq!(r, ExecutionResult::IoFailure);
    assert_eq!(out, vec![]);
    let (rc, outc) = compiled(&prog, vec![]);
    assert_eq!(rc, ExecutionResult::IoFailure);
    assert_eq!(outc, vec![]);
}

#[test]
fn write_to_full_sink_is_io_failure() {
    let prog = vec![Instruction::Write];
    let interpreter = Interpreter::new(8);
    let mut st = State::new(8, vec![], 0);
    let r = interpreter.interpret_state(&prog, &mut st, FUEL);
    assert_eq!(r, Some(ExecutionResult::IoFailure));
    assert_eq!(st.output, vec![]);

    let exe = CodeGeneration::x64().generate(&prog, 0, 0);
    let mut st2 = State::new(8, vec![], 0);
    let rc = exe.run(&mut st2, FUEL);
    assert_eq!(rc, Some(ExecutionResult::IoFailure));
    assert_eq!(st2.output, vec![]);
}

#[test]
fn nested_loops_depth_three_count_correctly() {
    // c0 = 2; three nested loops add 1 to cell 3 once per innermost pass:
    // cell 3 ends at 2 * 3 * 4 = 24.
    let inner = Instruction::Loop(vec![
        Instruction::MovePointer(1),
        Instruction::IncrementCell(1),
        Instruction::MovePointer(-1),
        Instruction::IncrementCell(-1),
    ]);
    let middle = Instruction::Loop(vec![
        Instruction::MovePointer(1),
        Instruction::IncrementCell(4),
        inner,
        Instruction::MovePointer(-1),
        Instruction::IncrementCell(-1),
    ]);
    let outer = Instruction::Loop(vec![
        Instruction::MovePointer(1),
        Instruction::IncrementCell(3),
        middle,
        Instruction::MovePointer(-1),
        Instruction::IncrementCell(-1),
    ]);
    let prog = vec![
        Instruction::IncrementCell(2),
        outer,
        Instruction::MovePointer(3),
        Instruction::Write,
    ];
    let (r, out) = interp(&prog, vec![]);
    assert_eq!(r, ExecutionResult::Success);
    assert_eq!(out, vec![24]);
    let (rc, outc) = compiled(&prog, vec![]);
    assert_eq!(rc, ExecutionResult::Success);
    assert_eq!(outc, vec![24]);
}

#[test]
fn interpreted_and_compiled_agree_on_programs_with_io() {
    // Copy input to output while decrementing each byte, then overflow.
    let prog = vec![
        Instruction::Read,
        Instruction::IncrementCell(-2),
        Instruction::Write,
        Instruction::Read,
        Instruction::IncrementCell(5),
        Instruction::Write,
        Instruction::MovePointer(-1),
    ];
    let (r, out) = interp(&prog, vec![10, 20]);
    let (rc, outc) = compiled(&prog, vec![10, 20]);
    assert_eq!(r, rc);
    assert_eq!(out, outc);
    assert_eq!(r, ExecutionResult::Overflow);
    assert_eq!(out, vec![8, 25]);
}

#[test]
fn non_halting_program_times_out() {
    // Cell 0 is 1, the loop body never changes it: no halt within the budget.
    let prog = vec![Instruction::IncrementCell(1), Instruction::Loop(vec![])];
    let (r, _) = Interpreter::new(16).interpret(&prog, vec![], 1000);
    assert_eq!(r, None);
    let exe = CodeGeneration::x64().generate(&prog, 0, 0);
    let mut st = State::new(16, vec![], usize::MAX);
    assert_eq!(exe.run(&mut st, 1000), None);
}

#[test]
fn is_error_classifies_results() {
    assert!(!ExecutionResult::Success.is_error());
    assert!(ExecutionResult::Overflow.is_error());
    assert!(ExecutionResult::IoFailure.is_error());
}

#[test]
fn state_read_and_write_bytes() {
    let mut st = State::new(4, vec![7], 1);
    assert_eq!(st.read_byte(), Some(7));
    assert_eq!(st.read_byte(), None);
    assert!(st.write_byte(9));
    assert!(!st.write_byte(10));
    assert_eq!(st.output, vec![9]);
}
