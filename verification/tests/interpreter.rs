use tapevm::interpreter::{interpret, run, RunOutcome, StopReason, TAPE_LEN};
use tapevm::parser::Program;

const STEPS: u64 = 1_000_000;

fn exec(source: &str, input: &[u8]) -> RunOutcome {
    let program = Program::from_source(String::from(source)).unwrap();
    interpret(&program, &input.to_vec(), STEPS)
}

fn exec_on_tape(source: &str, cells: &[(usize, u8)]) -> RunOutcome {
    let program = Program::from_source(String::from(source)).unwrap();
    let mut tape = vec![0u8; TAPE_LEN];
    for &(i, v) in cells {
        tape[i] = v;
    }
    run(&program, tape, 0, &Vec::new(), STEPS)
}

#[test]
fn eight_increments_write_eight() {
    let r = exec("++++++++.", &[]);
    assert_eq!(r.reason, StopReason::Halted);
    assert_eq!(r.output, vec![8]);
}

#[test]
fn zero_loop_clears_cell() {
    let r = exec_on_tape("[-]", &[(0, 200)]);
    assert_eq!(r.reason, StopReason::Halted);
    assert_eq!(r.tape[0], 0);
}

#[test]
fn stride_loop_seeks_zero_cell() {
    // Cells 0, 2 and 4 hold values; the stride of 2 stops at cell 6.
    let r = exec_on_tape("[>>]", &[(0, 1), (2, 5), (4, 9)]);
    assert_eq!(r.reason, StopReason::Halted);
    assert_eq!(r.cursor, 6);
}

#[test]
fn transfer_loop_accumulates() {
    // Source cell 5, target cell 10: the transfer adds, then zeroes.
    let r = exec_on_tape("[->>>+<<<]", &[(0, 5), (3, 10)]);
    assert_eq!(r.reason, StopReason::Halted);
    assert_eq!(r.tape[0], 0);
    assert_eq!(r.tape[3], 15);
}

#[test]
fn transfer_loop_on_zero_cell_is_a_no_op() {
    let r = exec_on_tape("[->+<]", &[(1, 7)]);
    assert_eq!(r.reason, StopReason::Halted);
    assert_eq!(r.tape[0], 0);
    assert_eq!(r.tape[1], 7);
}

#[test]
fn transfer_target_wraps_modulo_256() {
    let r = exec_on_tape("[->+<]", &[(0, 10), (1, 250)]);
    assert_eq!(r.reason, StopReason::Halted);
    assert_eq!(r.tape[0], 0);
    assert_eq!(r.tape[1], 4);
}

#[test]
fn increment_wraps_255_to_zero() {
    let r = exec_on_tape("+.", &[(0, 255)]);
    assert_eq!(r.reason, StopReason::Halted);
    assert_eq!(r.output, vec![0]);
}

#[test]
fn decrement_wraps_zero_to_255() {
    let r = exec("-.", &[]);
    assert_eq!(r.reason, StopReason::Halted);
    assert_eq!(r.output, vec![255]);
}

#[test]
fn read_writes_input_byte_to_cell() {
    let r = exec(",.", &[65]);
    assert_eq!(r.reason, StopReason::Halted);
    assert_eq!(r.output, vec![65]);

    let r = exec(",,.", &[1, 2]);
    assert_eq!(r.output, vec![2]);
}

#[test]
fn read_yields_zero_when_input_is_spent() {
    let r = exec("+,.", &[]);
    assert_eq!(r.reason, StopReason::Halted);
    assert_eq!(r.output, vec![0]);
}

#[test]
fn cursor_cannot_leave_the_tape_leftward() {
    let r = exec("<", &[]);
    assert_eq!(r.reason, StopReason::OutOfBounds);

    // A leftward stride loop from cell 0 with a non-zero cell goes out too.
    let r = exec("+[<]", &[]);
    assert_eq!(r.reason, StopReason::OutOfBounds);
}

#[test]
fn cursor_cannot_leave_the_tape_rightward() {
    let source: String = std::iter::repeat('>').take(TAPE_LEN).collect();
    let r = exec(&source, &[]);
    assert_eq!(r.reason, StopReason::OutOfBounds);
}

#[test]
fn infinite_loop_exhausts_the_step_budget() {
    let program = Program::from_source(String::from("+[]")).unwrap();
    let r = interpret(&program, &Vec::new(), 1000);
    assert_eq!(r.reason, StopReason::StepLimit);
}

#[test]
fn jump_pairs_drive_an_ordinary_loop() {
    // Three passes of a plain doubling loop: 3 becomes 6.
    let r = exec_on_tape("[->++<]", &[(0, 3)]);
    assert_eq!(r.reason, StopReason::Halted);
    assert_eq!(r.tape[0], 0);
    assert_eq!(r.tape[1], 6);
}

#[test]
fn hello_world_program_runs_end_to_end() {
    let source = "++++++++[>++++[>++>+++>+++>+<<<<-]>+>+>->>+[<]<-]\
                  >>.>---.+++++++..+++.>>.<-.<.+++.------.--------.>>+.>++.";
    let r = exec(source, &[]);
    assert_eq!(r.reason, StopReason::Halted);
    assert_eq!(r.output, b"Hello World!\n".to_vec());
}

#[test]
fn comma_format_groups_thousands() {
    assert_eq!(tapevm::interpreter::comma_format(0), "0");
    assert_eq!(tapevm::interpreter::comma_format(7), "7");
    assert_eq!(tapevm::interpreter::comma_format(100), "100");
    assert_eq!(tapevm::interpreter::comma_format(1000), "1,000");
    assert_eq!(tapevm::interpreter::comma_format(999999), "999,999");
    assert_eq!(tapevm::interpreter::comma_format(1234567), "1,234,567");
    assert_eq!(
        tapevm::interpreter::comma_format(u64::MAX),
        "18,446,744,073,709,551,615"
    );
}
