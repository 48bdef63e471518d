//! The interpreter: a fetch-decode-execute loop over an opcode stream.
//!
//! The machine is a fixed-size byte tape with a cursor, a program counter,
//! an input byte sequence consumed by `ReadStdin`, and an output byte
//! sequence grown by `WriteStdout`.  Its semantics is given by the
//! small-step function [`spec_step`]; the executable loop is proved to
//! produce exactly the state that iterating [`spec_step`] produces.
//!
//! Cell arithmetic wraps modulo 256.  Moving the cursor out of the tape is
//! detected and reported as a clean out-of-bounds stop rather than touching
//! memory outside the tape.  Since a program may loop forever, execution
//! takes a step budget and reports when it is exhausted.
use crate::parser::{jump_target_ok, prog_wf, Opcode, Program};
use vstd::prelude::*;

verus! {

/// Number of cells on the tape.
pub const TAPE_LEN: usize = 30000;

/// The machine state, at the specification level.
pub ghost struct MState {
    /// Program counter: index of the next opcode to execute.
    pub pc: nat,
    /// The tape index currently addressed.
    pub cursor: nat,
    /// The cells.
    pub tape: Seq<u8>,
    /// How many input bytes have been consumed.
    pub in_pos: nat,
    /// The bytes emitted so far.
    pub out: Seq<u8>,
}

/// The state's own invariant: the cursor addresses a cell of the
/// fixed-size tape.
pub open spec fn wf_state(s: MState) -> bool {
    &&& s.tape.len() == TAPE_LEN
    &&& s.cursor < TAPE_LEN
}

/// A cell plus a count, wrapping modulo 256.
pub open spec fn wrap_add(cell: u8, n: nat) -> u8 {
    ((cell + n) % 256) as u8
}

/// A cell minus a count, wrapping modulo 256.
pub open spec fn wrap_sub(cell: u8, n: nat) -> u8 {
    ((cell + 256 - (n % 256)) % 256) as u8
}

/// One step of execution: the effect of the opcode at the program counter.
///
/// `None` means the step would move the cursor (or, for a transfer, address
/// a cell) outside the tape.  A taken jump lands one past its target, the
/// bracket partner, so matched pairs act as sentinels rather than
/// executable work.  The two collapsed loop forms that re-test their cell
/// (`LoopMovePtr`, `LoopMoveData`) advance the program counter only once
/// the current cell is zero; `LoopMovePtr` strides one step at a time.
#[verifier::opaque]
pub open spec fn spec_step(prog: Seq<Opcode>, inp: Seq<u8>, s: MState) -> Option<MState>
    recommends
        s.pc < prog.len(),
        wf_state(s),
{
    match prog[s.pc as int] {
        Opcode::IncPtr(n) => if s.cursor + n < TAPE_LEN {
            Some(MState { pc: s.pc + 1, cursor: (s.cursor + n) as nat, ..s })
        } else {
            None
        },
        Opcode::DecPtr(n) => if n <= s.cursor {
            Some(MState { pc: s.pc + 1, cursor: (s.cursor - n) as nat, ..s })
        } else {
            None
        },
        Opcode::IncData(n) => Some(
            MState {
                pc: s.pc + 1,
                tape: s.tape.update(
                    s.cursor as int,
                    wrap_add(s.tape[s.cursor as int], n as nat),
                ),
                ..s
            },
        ),
        Opcode::DecData(n) => Some(
            MState {
                pc: s.pc + 1,
                tape: s.tape.update(
                    s.cursor as int,
                    wrap_sub(s.tape[s.cursor as int], n as nat),
                ),
                ..s
            },
        ),
        Opcode::ReadStdin => if s.in_pos < inp.len() {
            Some(
                MState {
                    pc: s.pc + 1,
                    tape: s.tape.update(s.cursor as int, inp[s.in_pos as int]),
                    in_pos: s.in_pos + 1,
                    ..s
                },
            )
        } else {
            Some(MState { pc: s.pc + 1, tape: s.tape.update(s.cursor as int, 0), ..s })
        },
        Opcode::WriteStdout => Some(
            MState { pc: s.pc + 1, out: s.out.push(s.tape[s.cursor as int]), ..s },
        ),
        Opcode::LoopSetToZero => Some(
            MState { pc: s.pc + 1, tape: s.tape.update(s.cursor as int, 0), ..s },
        ),
        Opcode::LoopMovePtr(n, rightward) => if s.tape[s.cursor as int] == 0 {
            Some(MState { pc: s.pc + 1, ..s })
        } else if rightward {
            if s.cursor + n < TAPE_LEN {
                Some(MState { cursor: (s.cursor + n) as nat, ..s })
            } else {
                None
            }
        } else {
            if n <= s.cursor {
                Some(MState { cursor: (s.cursor - n) as nat, ..s })
            } else {
                None
            }
        },
        Opcode::LoopMoveData(n, rightward) => if s.tape[s.cursor as int] == 0 {
            Some(MState { pc: s.pc + 1, ..s })
        } else {
            let src = s.cursor as int;
            if rightward {
                if s.cursor + n < TAPE_LEN {
                    let dst = src + n;
                    Some(
                        MState {
                            pc: s.pc + 1,
                            tape: s.tape.update(
                                dst,
                                wrap_add(s.tape[dst], s.tape[src] as nat),
                            ).update(src, 0),
                            ..s
                        },
                    )
                } else {
                    None
                }
            } else {
                if n <= s.cursor {
                    let dst = src - n;
                    Some(
                        MState {
                            pc: s.pc + 1,
                            tape: s.tape.update(
                                dst,
                                wrap_add(s.tape[dst], s.tape[src] as nat),
                            ).update(src, 0),
                            ..s
                        },
                    )
                } else {
                    None
                }
            }
        },
        Opcode::JumpIfDataZero(t) => if s.tape[s.cursor as int] == 0 {
            Some(MState { pc: (t + 1) as nat, ..s })
        } else {
            Some(MState { pc: s.pc + 1, ..s })
        },
        Opcode::JumpIfDataNotZero(t) => if s.tape[s.cursor as int] != 0 {
            Some(MState { pc: (t + 1) as nat, ..s })
        } else {
            Some(MState { pc: s.pc + 1, ..s })
        },
    }
}

/// Why execution stopped.
#[derive(Clone, Copy, Debug, PartialEq, Eq, Structural)]
pub enum StopReason {
    /// The program counter ran off the end of the program.
    Halted,
    /// A step would have moved the cursor outside the tape.
    OutOfBounds,
    /// The step budget ran out first.
    StepLimit,
}

/// Execution from a state with a step budget: the stop reason and the state
/// in which the machine stops.
pub open spec fn spec_run(prog: Seq<Opcode>, inp: Seq<u8>, s: MState, fuel: nat) -> (
    StopReason,
    MState,
)
    decreases fuel,
{
    if s.pc >= prog.len() {
        (StopReason::Halted, s)
    } else if fuel == 0 {
        (StopReason::StepLimit, s)
    } else {
        match spec_step(prog, inp, s) {
            None => (StopReason::OutOfBounds, s),
            Some(s2) => spec_run(prog, inp, s2, (fuel - 1) as nat),
        }
    }
}

/// The machine's starting state: program counter at 0, nothing read,
/// nothing written.
pub open spec fn init_state(tape: Seq<u8>, cursor: nat) -> MState {
    MState { pc: 0, cursor, tape, in_pos: 0, out: Seq::empty() }
}

/// What one execution left behind.
pub struct RunOutcome {
    /// Why the machine stopped.
    pub reason: StopReason,
    /// The tape as the machine left it.
    pub tape: Vec<u8>,
    /// The cursor as the machine left it.
    pub cursor: usize,
    /// The bytes the program emitted.
    pub output: Vec<u8>,
}

/// Adding a count modulo 256 only depends on the count modulo 256.
proof fn lemma_wrap_add_mod(cell: u8, n: nat)
    ensures
        wrap_add(cell, n) == wrap_add(cell, n % 256),
{
    vstd::arithmetic::div_mod::lemma_add_mod_noop(cell as int, n as int, 256);
    vstd::arithmetic::div_mod::lemma_add_mod_noop(cell as int, (n % 256) as int, 256);
    vstd::arithmetic::div_mod::lemma_mod_twice(n as int, 256);
    vstd::arithmetic::div_mod::lemma_small_mod(cell as nat, 256);
}

/// The machine state, executable form: what [`run`] threads through its
/// fetch-decode-execute loop.
pub struct Machine {
    /// Program counter: index of the next opcode to execute.
    pub pc: usize,
    /// The tape index currently addressed.
    pub cursor: usize,
    /// The cells.
    pub tape: Vec<u8>,
    /// How many input bytes have been consumed.
    pub in_pos: usize,
    /// The bytes emitted so far.
    pub output: Vec<u8>,
}

impl View for Machine {
    type V = MState;

    open spec fn view(&self) -> MState {
        MState {
            pc: self.pc as nat,
            cursor: self.cursor as nat,
            tape: self.tape@,
            in_pos: self.in_pos as nat,
            out: self.output@,
        }
    }
}

/// Execute the opcode at the program counter, mutating the machine in
/// place.  Returns false, leaving the machine unchanged, when the step
/// would go out of bounds.
#[verifier::rlimit(100)]
fn step(program: &Program, input: &Vec<u8>, m: &mut Machine) -> (ok: bool)
    requires
        prog_wf(program@),
        program@.len() <= usize::MAX,
        wf_state(old(m)@),
        old(m)@.pc < program@.len(),
        old(m)@.in_pos <= input@.len(),
    ensures
        ok ==> Some(final(m)@) == spec_step(program@, input@, old(m)@),
        ok ==> wf_state(final(m)@) && final(m)@.pc <= program@.len() && final(m)@.in_pos
            <= input@.len(),
        !ok ==> spec_step(program@, input@, old(m)@) is None && final(m)@ == old(m)@,
{
    proof {
        reveal(spec_step);
        assert(jump_target_ok(program@[m.pc as int], program@.len() as int));
    }
    match program.instructions[m.pc] {
        Opcode::IncPtr(n) => {
            if n < TAPE_LEN - m.cursor {
                m.cursor = m.cursor + n;
                m.pc = m.pc + 1;
                true
            } else {
                false
            }
        },
        Opcode::DecPtr(n) => {
            if n <= m.cursor {
                m.cursor = m.cursor - n;
                m.pc = m.pc + 1;
                true
            } else {
                false
            }
        },
        Opcode::IncData(n) => {
            let v = (n % 256) as u8;
            let cell = m.tape[m.cursor];
            m.tape[m.cursor] = cell.wrapping_add(v);
            m.pc = m.pc + 1;
            proof {
                lemma_wrap_add_mod(cell, n as nat);
            }
            true
        },
        Opcode::DecData(n) => {
            let v = (n % 256) as u8;
            let cell = m.tape[m.cursor];
            m.tape[m.cursor] = cell.wrapping_sub(v);
            m.pc = m.pc + 1;
            true
        },
        Opcode::ReadStdin => {
            if m.in_pos < input.len() {
                m.tape[m.cursor] = input[m.in_pos];
                m.in_pos = m.in_pos + 1;
            } else {
                m.tape[m.cursor] = 0;
            }
            m.pc = m.pc + 1;
            true
        },
        Opcode::WriteStdout => {
            let cell = m.tape[m.cursor];
            m.output.push(cell);
            m.pc = m.pc + 1;
            true
        },
        Opcode::LoopSetToZero => {
            m.tape[m.cursor] = 0;
            m.pc = m.pc + 1;
            true
        },
        Opcode::LoopMovePtr(n, rightward) => {
            if m.tape[m.cursor] == 0 {
                m.pc = m.pc + 1;
                true
            } else if rightward {
                if n < TAPE_LEN - m.cursor {
                    m.cursor = m.cursor + n;
                    true
                } else {
                    false
                }
            } else {
                if n <= m.cursor {
                    m.cursor = m.cursor - n;
                    true
                } else {
                    false
                }
            }
        },
        Opcode::LoopMoveData(n, rightward) => {
            let cell = m.tape[m.cursor];
            if cell == 0 {
                m.pc = m.pc + 1;
                true
            } else if rightward {
                if n < TAPE_LEN - m.cursor {
                    let dst = m.cursor + n;
                    let tv = m.tape[dst];
                    m.tape[dst] = tv.wrapping_add(cell);
                    m.tape[m.cursor] = 0;
                    m.pc = m.pc + 1;
                    true
                } else {
                    false
                }
            } else {
                if n <= m.cursor {
                    let dst = m.cursor - n;
                    let tv = m.tape[dst];
                    m.tape[dst] = tv.wrapping_add(cell);
                    m.tape[m.cursor] = 0;
                    m.pc = m.pc + 1;
                    true
                } else {
                    false
                }
            }
        },
        Opcode::JumpIfDataZero(t) => {
            if m.tape[m.cursor] == 0 {
                m.pc = t + 1;
            } else {
                m.pc = m.pc + 1;
            }
            true
        },
        Opcode::JumpIfDataNotZero(t) => {
            if m.tape[m.cursor] != 0 {
                m.pc = t + 1;
            } else {
                m.pc = m.pc + 1;
            }
            true
        },
    }
}

/// Run a program on a given tape and cursor, feeding it `input` and
/// allowing it at most `max_steps` small steps.
///
/// The outcome is exactly what the specification-level machine produces:
/// the same stop reason and the same final tape, cursor and output.
#[verifier::rlimit(100)]
#[verifier::loop_isolation(false)]
pub fn run(program: &Program, tape: Vec<u8>, cursor: usize, input: &Vec<u8>, max_steps: u64) -> (r:
    RunOutcome)
    requires
        prog_wf(program@),
        tape@.len() == TAPE_LEN,
        cursor < TAPE_LEN,
    ensures
        r.reason == spec_run(
            program@,
            input@,
            init_state(tape@, cursor as nat),
            max_steps as nat,
        ).0,
        ({
            let fs = spec_run(program@, input@, init_state(tape@, cursor as nat), max_steps as nat).1;
            r.tape@ == fs.tape && r.cursor == fs.cursor && r.output@ == fs.out
        }),
{
    let ghost s0 = init_state(tape@, cursor as nat);
    let mut m = Machine { pc: 0, cursor, tape, in_pos: 0, output: Vec::new() };
    let mut steps: u64 = 0;
    let n_insns = program.instructions.len();
    while m.pc < n_insns
        invariant
            prog_wf(program@),
            n_insns == program@.len(),
            wf_state(m@),
            m.pc <= n_insns,
            m.in_pos <= input@.len(),
            steps <= max_steps,
            spec_run(program@, input@, m@, (max_steps - steps) as nat) == spec_run(
                program@,
                input@,
                s0,
                max_steps as nat,
            ),
        decreases max_steps - steps,
    {
        if steps == max_steps {
            proof {
                assert(spec_run(program@, input@, m@, (max_steps - steps) as nat) == (
                StopReason::StepLimit,
                m@,
                ));
            }
            return RunOutcome {
                reason: StopReason::StepLimit,
                tape: m.tape,
                cursor: m.cursor,
                output: m.output,
            };
        }
        let ghost prev = m@;
        let ghost rem = (max_steps - steps) as nat;
        let ok = step(program, input, &mut m);
        if !ok {
            proof {
                assert(spec_run(program@, input@, prev, rem) == (StopReason::OutOfBounds, prev));
            }
            return RunOutcome {
                reason: StopReason::OutOfBounds,
                tape: m.tape,
                cursor: m.cursor,
                output: m.output,
            };
        }
        proof {
            assert(spec_run(program@, input@, prev, rem) == spec_run(
                program@,
                input@,
                m@,
                (rem - 1) as nat,
            ));
        }
        steps = steps + 1;
    }
    proof {
        assert(spec_run(program@, input@, m@, (max_steps - steps) as nat) == (
        StopReason::Halted,
        m@,
        ));
    }
    RunOutcome { reason: StopReason::Halted, tape: m.tape, cursor: m.cursor, output: m.output }
}

/// The character for one decimal digit.
pub open spec fn digit_char(d: int) -> char {
    if d == 0 {
        '0'
    } else if d == 1 {
        '1'
    } else if d == 2 {
        '2'
    } else if d == 3 {
        '3'
    } else if d == 4 {
        '4'
    } else if d == 5 {
        '5'
    } else if d == 6 {
        '6'
    } else if d == 7 {
        '7'
    } else if d == 8 {
        '8'
    } else {
        '9'
    }
}

/// The decimal digits of `n`, most significant first, no leading zeros
/// (`0` itself is the single digit `0`).
pub open spec fn spec_digits(n: nat) -> Seq<char>
    decreases n,
{
    if n < 10 {
        seq![digit_char(n as int)]
    } else {
        spec_digits(n / 10).push(digit_char((n % 10) as int))
    }
}

/// `s` with a comma inserted before every position from which a positive
/// multiple of three characters remains: thousands grouping, counted from
/// the right.
pub open spec fn comma_sep_from(s: Seq<char>, j: int) -> Seq<char>
    decreases s.len() - j,
{
    if !(0 <= j < s.len()) {
        Seq::empty()
    } else {
        let rest = seq![s[j]] + comma_sep_from(s, j + 1);
        if j != 0 && (s.len() - j) % 3 == 0 {
            seq![','] + rest
        } else {
            rest
        }
    }
}

/// The decimal rendering of `n` with thousands separators.
pub open spec fn spec_comma_format(n: u64) -> Seq<char> {
    comma_sep_from(spec_digits(n as nat), 0)
}

/// Relies on String::push: appends exactly the one character.
#[verifier::external_body]
fn push_char(s: &mut String, c: char)
    ensures
        final(s)@ == old(s)@.push(c),
{
    s.push(c);
}

/// The character for one decimal digit, executable form.
fn digit_to_char(d: u64) -> (c: char)
    requires
        d < 10,
    ensures
        c == digit_char(d as int),
{
    if d == 0 {
        '0'
    } else if d == 1 {
        '1'
    } else if d == 2 {
        '2'
    } else if d == 3 {
        '3'
    } else if d == 4 {
        '4'
    } else if d == 5 {
        '5'
    } else if d == 6 {
        '6'
    } else if d == 7 {
        '7'
    } else if d == 8 {
        '8'
    } else {
        '9'
    }
}

/// Format a count in decimal with thousands separators.
#[verifier::loop_isolation(false)]
pub fn comma_format(n: u64) -> (r: String)
    ensures
        r@ == spec_comma_format(n),
{
    let mut rev: Vec<char> = Vec::new();
    let mut m: u64 = n;
    let d0 = digit_to_char(m % 10);
    rev.push(d0);
    proof {
        if n < 10 {
            assert(spec_digits(n as nat) =~= rev@.reverse());
        } else {
            assert(spec_digits(n as nat) =~= spec_digits((n / 10) as nat) + rev@.reverse());
        }
    }
    m = m / 10;
    while m > 0
        invariant
            m > 0 ==> spec_digits(n as nat) == spec_digits(m as nat) + rev@.reverse(),
            m == 0 ==> spec_digits(n as nat) == rev@.reverse(),
            rev@.len() >= 1,
        decreases m,
    {
        let ghost old_rev = rev@;
        let ghost old_m = m;
        let d = digit_to_char(m % 10);
        rev.push(d);
        m = m / 10;
        proof {
            assert(rev@.reverse() =~= seq![digit_char((old_m % 10) as int)] + old_rev.reverse());
            if m > 0 {
                assert(spec_digits(old_m as nat) == spec_digits(m as nat).push(
                    digit_char((old_m % 10) as int),
                ));
                assert(spec_digits(m as nat) + rev@.reverse() =~= (spec_digits(m as nat).push(
                    digit_char((old_m % 10) as int),
                )) + old_rev.reverse());
            } else {
                assert(spec_digits(old_m as nat) =~= rev@.reverse().subrange(0, 1));
                assert(rev@.reverse() =~= spec_digits(old_m as nat) + old_rev.reverse());
            }
        }
    }
    let ghost s = spec_digits(n as nat);
    let len = rev.len();
    let mut out = String::new();
    let mut j: usize = 0;
    proof {
        assert(out@ + comma_sep_from(s, 0) =~= comma_sep_from(s, 0));
    }
    while j < len
        invariant
            len == s.len(),
            s == rev@.reverse(),
            j <= len,
            out@ + comma_sep_from(s, j as int) == comma_sep_from(s, 0),
        decreases len - j,
    {
        let ghost old_out = out@;
        if j != 0 && (len - j) % 3 == 0 {
            push_char(&mut out, ',');
        }
        let c = rev[len - 1 - j];
        proof {
            assert(c == s[j as int]);
        }
        push_char(&mut out, c);
        proof {
            let rest = seq![s[j as int]] + comma_sep_from(s, j + 1);
            if j != 0 && (s.len() - j) % 3 == 0 {
                assert(comma_sep_from(s, j as int) == seq![','] + rest);
                assert(out@ =~= old_out.push(',').push(s[j as int]));
                assert(out@ + comma_sep_from(s, j + 1) =~= old_out + comma_sep_from(s, j as int));
            } else {
                assert(comma_sep_from(s, j as int) == rest);
                assert(out@ =~= old_out.push(s[j as int]));
                assert(out@ + comma_sep_from(s, j + 1) =~= old_out + comma_sep_from(s, j as int));
            }
        }
        j += 1;
    }
    proof {
        assert(out@ + comma_sep_from(s, len as int) =~= out@);
    }
    out
}

/// Execute a compiled program from the standard starting state: a fresh
/// all-zero tape with the cursor at its left end.
pub fn interpret(program: &Program, input: &Vec<u8>, max_steps: u64) -> (r: RunOutcome)
    requires
        prog_wf(program@),
    ensures
        r.reason == spec_run(
            program@,
            input@,
            init_state(Seq::new(TAPE_LEN as nat, |i: int| 0u8), 0),
            max_steps as nat,
        ).0,
        ({
            let fs = spec_run(
                program@,
                input@,
                init_state(Seq::new(TAPE_LEN as nat, |i: int| 0u8), 0),
                max_steps as nat,
            ).1;
            r.tape@ == fs.tape && r.cursor == fs.cursor && r.output@ == fs.out
        }),
{
    let tape: Vec<u8> = vec![0u8; TAPE_LEN];
    proof {
        assert(tape@ =~= Seq::new(TAPE_LEN as nat, |i: int| 0u8));
    }
    run(program, tape, 0, input, max_steps)
}

} // verus!
