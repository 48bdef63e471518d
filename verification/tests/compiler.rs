use tapevm::parser::{Opcode, Program, SyntaxError};

#[test]
fn parser_loop_optimization() {
    let program = Program::from_source(String::from("[-]")).unwrap();
    assert_eq!(program.instructions.len(), 1);
    assert_eq!(program.instructions[0], Opcode::LoopSetToZero);

    let program = Program::from_source(String::from("[>>]")).unwrap();
    assert_eq!(program.instructions.len(), 1);
    assert_eq!(program.instructions[0], Opcode::LoopMovePtr(2, true));

    let program = Program::from_source(String::from("[->>>+<<<]")).unwrap();
    assert_eq!(program.instructions.len(), 1);
    assert_eq!(program.instructions[0], Opcode::LoopMoveData(3, true));

    let program = Program::from_source(String::from(">>>[-<<<<<<+>>>>>>]")).unwrap();
    assert_eq!(program.instructions.len(), 2);
    assert_eq!(program.instructions[0], Opcode::IncPtr(3));
    assert_eq!(program.instructions[1], Opcode::LoopMoveData(6, false));
}

#[test]
fn main_loop_optimization() {
    let program = Program::from_source(String::from("[-]")).unwrap();
    assert_eq!(program.instructions.len(), 1);
    assert_eq!(program.instructions[0], Opcode::LoopSetToZero);

    let program = Program::from_source(String::from("[>>]")).unwrap();
    assert_eq!(program.instructions.len(), 1);
    assert_eq!(program.instructions[0], Opcode::LoopMovePtr(2, true));

    let program = Program::from_source(String::from("[->>>+<<<]")).unwrap();
    assert_eq!(program.instructions.len(), 1);
    assert_eq!(program.instructions[0], Opcode::LoopMoveData(3, true));

    let program = Program::from_source(String::from(">>>[-<<<<<<+>>>>>>]")).unwrap();
    assert_eq!(program.instructions.len(), 2);
    assert_eq!(program.instructions[0], Opcode::IncPtr(3));
    assert_eq!(program.instructions[1], Opcode::LoopMoveData(6, false));
}

#[test]
fn run_length_collapsing() {
    let program = Program::from_source(String::from("+++")).unwrap();
    assert_eq!(program.instructions, vec![Opcode::IncData(3)]);

    let program = Program::from_source(String::from(">><<<--,.")).unwrap();
    assert_eq!(
        program.instructions,
        vec![
            Opcode::IncPtr(2),
            Opcode::DecPtr(3),
            Opcode::DecData(2),
            Opcode::ReadStdin,
            Opcode::WriteStdout,
        ]
    );
}

#[test]
fn long_runs_are_not_truncated() {
    let source: String = std::iter::repeat('+').take(300).collect();
    let program = Program::from_source(source).unwrap();
    assert_eq!(program.instructions, vec![Opcode::IncData(300)]);

    let source: String = std::iter::repeat('>').take(70000).collect();
    let program = Program::from_source(source).unwrap();
    assert_eq!(program.instructions, vec![Opcode::IncPtr(70000)]);
}

#[test]
fn comments_are_ignored() {
    let program = Program::from_source(String::from("a + b\nc - d")).unwrap();
    assert_eq!(
        program.instructions,
        vec![Opcode::IncData(1), Opcode::DecData(1)]
    );

    let program = Program::from_source(String::from("no instructions at all")).unwrap();
    assert_eq!(program.instructions.len(), 0);
}

#[test]
fn unoptimized_brackets_resolve_jumps() {
    // A loop body that matches no idiom compiles to a resolved jump pair.
    let program = Program::from_source(String::from("[+]")).unwrap();
    assert_eq!(
        program.instructions,
        vec![
            Opcode::JumpIfDataZero(2),
            Opcode::IncData(1),
            Opcode::JumpIfDataNotZero(0),
        ]
    );

    let program = Program::from_source(String::from("[[]]")).unwrap();
    assert_eq!(
        program.instructions,
        vec![
            Opcode::JumpIfDataZero(3),
            Opcode::JumpIfDataZero(2),
            Opcode::JumpIfDataNotZero(1),
            Opcode::JumpIfDataNotZero(0),
        ]
    );
}

#[test]
fn unmatched_open_bracket_fails() {
    // A lone open bracket fails at position 0.
    assert_eq!(
        Program::from_source(String::from("[")).unwrap_err(),
        SyntaxError::UnmatchedOpen(0)
    );
    assert_eq!(
        Program::from_source(String::from("+[")).unwrap_err(),
        SyntaxError::UnmatchedOpen(1)
    );
}

#[test]
fn unmatched_close_bracket_fails() {
    assert_eq!(
        Program::from_source(String::from("]")).unwrap_err(),
        SyntaxError::UnmatchedClose(0)
    );
    assert_eq!(
        Program::from_source(String::from("++]")).unwrap_err(),
        SyntaxError::UnmatchedClose(1)
    );
}

#[test]
fn optimize_loops_matches_exact_slices_only() {
    assert_eq!(
        Program::optimize_loops(&[Opcode::DecData(1)]),
        Some(Opcode::LoopSetToZero)
    );
    assert_eq!(Program::optimize_loops(&[Opcode::DecData(2)]), None);
    assert_eq!(Program::optimize_loops(&[Opcode::IncData(1)]), None);
    assert_eq!(
        Program::optimize_loops(&[Opcode::IncPtr(5)]),
        Some(Opcode::LoopMovePtr(5, true))
    );
    assert_eq!(
        Program::optimize_loops(&[Opcode::DecPtr(7)]),
        Some(Opcode::LoopMovePtr(7, false))
    );
    assert_eq!(
        Program::optimize_loops(&[
            Opcode::DecData(1),
            Opcode::IncPtr(4),
            Opcode::IncData(1),
            Opcode::DecPtr(4),
        ]),
        Some(Opcode::LoopMoveData(4, true))
    );
    // Strides that do not agree match nothing.
    assert_eq!(
        Program::optimize_loops(&[
            Opcode::DecData(1),
            Opcode::IncPtr(4),
            Opcode::IncData(1),
            Opcode::DecPtr(5),
        ]),
        None
    );
    assert_eq!(
        Program::optimize_loops(&[Opcode::DecData(1), Opcode::IncData(1)]),
        None
    );
    // An already-collapsed opcode never matches again.
    assert_eq!(Program::optimize_loops(&[Opcode::LoopSetToZero]), None);
    assert_eq!(Program::optimize_loops(&[Opcode::LoopMovePtr(2, true)]), None);
}

#[test]
fn count_occ_counts_runs() {
    let chars: Vec<char> = "aaab".chars().collect();
    assert_eq!(tapevm::parser::count_occ('a', &chars, 0), 3);
    assert_eq!(tapevm::parser::count_occ('a', &chars, 1), 2);
    assert_eq!(tapevm::parser::count_occ('b', &chars, 3), 1);
    assert_eq!(tapevm::parser::count_occ('b', &chars, 0), 0);
    assert_eq!(tapevm::parser::count_occ('a', &chars, 4), 0);
}

#[test]
fn opcode_symbols() {
    assert_eq!(Opcode::IncPtr(3).symbol(), ">");
    assert_eq!(Opcode::DecPtr(1).symbol(), "<");
    assert_eq!(Opcode::IncData(2).symbol(), "+");
    assert_eq!(Opcode::DecData(2).symbol(), "-");
    assert_eq!(Opcode::ReadStdin.symbol(), ",");
    assert_eq!(Opcode::WriteStdout.symbol(), ".");
    assert_eq!(Opcode::LoopSetToZero.symbol(), "LOOP_SET_TO_ZERO");
    assert_eq!(Opcode::LoopMovePtr(2, false).symbol(), "LOOP_MOVE_PTR");
    assert_eq!(Opcode::LoopMoveData(2, true).symbol(), "LOOP_MOVE_DATA");
    assert_eq!(Opcode::JumpIfDataZero(9).symbol(), "[");
    assert_eq!(Opcode::JumpIfDataNotZero(4).symbol(), "]");
}
