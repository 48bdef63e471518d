//! The compiler: source text to an optimized opcode stream.
//!
//! Source is scanned left to right.  Runs of the four single-step symbols
//! (`>` `<` `+` `-`) are collapsed into one opcode carrying the run length.
//! Brackets are paired with an explicit stack; when a bracket pair closes,
//! the opcode slice it encloses is handed to the peephole optimizer, which
//! replaces three common loop idioms with single opcodes.
use vstd::prelude::*;

verus! {

/// One instruction of the optimized stream.
///
/// Run lengths and strides are at least 1 and are stored in full width, so
/// long runs are never truncated.  Jump targets are indices into the stream:
/// a `JumpIfDataZero` points at its matching `JumpIfDataNotZero` and vice
/// versa.
#[derive(Clone, Copy, Debug, PartialEq, Eq, Structural)]
pub enum Opcode {
    /// Move the cursor right by the given count.
    IncPtr(usize),
    /// Move the cursor left by the given count.
    DecPtr(usize),
    /// Add the given count to the current cell, wrapping modulo 256.
    IncData(usize),
    /// Subtract the given count from the current cell, wrapping modulo 256.
    DecData(usize),
    /// Read one byte of input into the current cell (0 when input is spent).
    ReadStdin,
    /// Emit the current cell as one byte of output.
    WriteStdout,
    /// Collapsed form of `[-]`: set the current cell to 0.
    LoopSetToZero,
    /// Collapsed form of `[>..>]` / `[<..<]`: stride the cursor by the given
    /// count (rightward when the flag is true) until it lands on a zero cell.
    LoopMovePtr(usize, bool),
    /// Collapsed form of `[->..>+<..<]` / `[-<..<+>..>]`: add the current
    /// cell into the cell the given stride away (rightward when the flag is
    /// true), then zero the current cell.
    LoopMoveData(usize, bool),
    /// Jump to the given target when the current cell is zero.
    JumpIfDataZero(usize),
    /// Jump to the given target when the current cell is not zero.
    JumpIfDataNotZero(usize),
}

/// The display form of an opcode: the source symbol it came from, or a
/// name for a collapsed loop form.
pub open spec fn symbol_of(op: Opcode) -> Seq<char> {
    match op {
        Opcode::IncPtr(_) => ">"@,
        Opcode::DecPtr(_) => "<"@,
        Opcode::IncData(_) => "+"@,
        Opcode::DecData(_) => "-"@,
        Opcode::ReadStdin => ","@,
        Opcode::WriteStdout => "."@,
        Opcode::LoopSetToZero => "LOOP_SET_TO_ZERO"@,
        Opcode::LoopMovePtr(_, _) => "LOOP_MOVE_PTR"@,
        Opcode::LoopMoveData(_, _) => "LOOP_MOVE_DATA"@,
        Opcode::JumpIfDataZero(_) => "["@,
        Opcode::JumpIfDataNotZero(_) => "]"@,
    }
}

impl Opcode {
    /// The opcode's display form, for traces and reports.
    pub fn symbol(&self) -> (r: String)
        ensures
            r@ == symbol_of(*self),
    {
        match self {
            Opcode::IncPtr(_) => String::from_str(">"),
            Opcode::DecPtr(_) => String::from_str("<"),
            Opcode::IncData(_) => String::from_str("+"),
            Opcode::DecData(_) => String::from_str("-"),
            Opcode::ReadStdin => String::from_str(","),
            Opcode::WriteStdout => String::from_str("."),
            Opcode::LoopSetToZero => String::from_str("LOOP_SET_TO_ZERO"),
            Opcode::LoopMovePtr(_, _) => String::from_str("LOOP_MOVE_PTR"),
            Opcode::LoopMoveData(_, _) => String::from_str("LOOP_MOVE_DATA"),
            Opcode::JumpIfDataZero(_) => String::from_str("["),
            Opcode::JumpIfDataNotZero(_) => String::from_str("]"),
        }
    }
}

/// Compilation failure: an unmatched bracket, carrying the position it
/// would have occupied in the opcode stream.
#[derive(Clone, Copy, Debug, PartialEq, Eq, Structural)]
pub enum SyntaxError {
    /// A `[` that is never closed.
    UnmatchedOpen(usize),
    /// A `]` with no `[` open.
    UnmatchedClose(usize),
}

/// A compiled program: an ordered opcode stream in control-flow order.
#[derive(Debug)]
pub struct Program {
    pub instructions: Vec<Opcode>,
}

impl View for Program {
    type V = Seq<Opcode>;

    open spec fn view(&self) -> Seq<Opcode> {
        self.instructions@
    }
}

/// What the peephole optimizer replaces a bracketed slice with, if anything.
///
/// Exactly three idioms match, each on the whole slice:
/// a single one-step decrement, a lone cursor run, and the four-opcode
/// transfer pattern whose two strides agree.
pub open spec fn spec_optimize(s: Seq<Opcode>) -> Option<Opcode> {
    if s.len() == 1 {
        match s[0] {
            Opcode::DecData(c) => if c == 1 {
                Some(Opcode::LoopSetToZero)
            } else {
                None
            },
            Opcode::IncPtr(n) => Some(Opcode::LoopMovePtr(n, true)),
            Opcode::DecPtr(n) => Some(Opcode::LoopMovePtr(n, false)),
            _ => None,
        }
    } else if s.len() == 4 {
        if s[0] == Opcode::DecData(1usize) && s[2] == Opcode::IncData(1usize) {
            match (s[1], s[3]) {
                (Opcode::IncPtr(n), Opcode::DecPtr(m)) => if n == m {
                    Some(Opcode::LoopMoveData(n, true))
                } else {
                    None
                },
                (Opcode::DecPtr(n), Opcode::IncPtr(m)) => if n == m {
                    Some(Opcode::LoopMoveData(n, false))
                } else {
                    None
                },
                _ => None,
            }
        } else {
            None
        }
    } else {
        None
    }
}

/// The length of the run of copies of `c` starting at position `i` of `src`.
pub open spec fn run_len(src: Seq<char>, i: int, c: char) -> nat
    decreases src.len() - i,
{
    if 0 <= i < src.len() && src[i] == c {
        (1 + run_len(src, i + 1, c)) as nat
    } else {
        0
    }
}

/// What compilation yields from position `i` onward, given the opcodes
/// already emitted and the positions of the still-open brackets.
///
/// This is the compiler, one scan step per recursive call: runs of the four
/// single-step symbols collapse into one counted opcode; `[` emits a
/// placeholder jump aimed at its own position and opens a bracket; `]`
/// closes the innermost bracket, collapsing the enclosed slice when the
/// peephole optimizer matches it and otherwise resolving the pair of jumps;
/// every other character is ignored.
pub open spec fn spec_compile_rec(
    src: Seq<char>,
    i: int,
    instrs: Seq<Opcode>,
    stack: Seq<usize>,
) -> Result<Seq<Opcode>, SyntaxError>
    decreases (if i <= src.len() { src.len() - i } else { 0 }),
{
    if !(0 <= i < src.len()) {
        if stack.len() == 0 {
            Ok(instrs)
        } else {
            Err(SyntaxError::UnmatchedOpen(stack[0]))
        }
    } else {
        let c = src[i];
        if c == '>' {
            let k = 1 + run_len(src, i + 1, '>');
            spec_compile_rec(src, i + k, instrs.push(Opcode::IncPtr(k as usize)), stack)
        } else if c == '<' {
            let k = 1 + run_len(src, i + 1, '<');
            spec_compile_rec(src, i + k, instrs.push(Opcode::DecPtr(k as usize)), stack)
        } else if c == '+' {
            let k = 1 + run_len(src, i + 1, '+');
            spec_compile_rec(src, i + k, instrs.push(Opcode::IncData(k as usize)), stack)
        } else if c == '-' {
            let k = 1 + run_len(src, i + 1, '-');
            spec_compile_rec(src, i + k, instrs.push(Opcode::DecData(k as usize)), stack)
        } else if c == ',' {
            spec_compile_rec(src, i + 1, instrs.push(Opcode::ReadStdin), stack)
        } else if c == '.' {
            spec_compile_rec(src, i + 1, instrs.push(Opcode::WriteStdout), stack)
        } else if c == '[' {
            let pos = instrs.len() as usize;
            spec_compile_rec(src, i + 1, instrs.push(Opcode::JumpIfDataZero(pos)), stack.push(pos))
        } else if c == ']' {
            if stack.len() == 0 {
                Err(SyntaxError::UnmatchedClose(instrs.len() as usize))
            } else {
                let open = stack.last() as int;
                let body = instrs.subrange(open + 1, instrs.len() as int);
                match spec_optimize(body) {
                    Some(r) => spec_compile_rec(
                        src,
                        i + 1,
                        instrs.subrange(0, open).push(r),
                        stack.drop_last(),
                    ),
                    None => spec_compile_rec(
                        src,
                        i + 1,
                        instrs.update(open, Opcode::JumpIfDataZero(instrs.len() as usize)).push(
                            Opcode::JumpIfDataNotZero(stack.last()),
                        ),
                        stack.drop_last(),
                    ),
                }
            }
        } else {
            spec_compile_rec(src, i + 1, instrs, stack)
        }
    }
}

/// What compiling a whole source text yields: the opcode stream, or the
/// unmatched bracket on which compilation fails.
pub open spec fn spec_compile(src: Seq<char>) -> Result<Seq<Opcode>, SyntaxError> {
    spec_compile_rec(src, 0, Seq::empty(), Seq::empty())
}

/// Whether a jump in `op` (if any) points strictly inside a stream of the
/// given length.
pub open spec fn jump_target_ok(op: Opcode, len: int) -> bool {
    match op {
        Opcode::JumpIfDataZero(t) => (t as int) < len,
        Opcode::JumpIfDataNotZero(t) => (t as int) < len,
        _ => true,
    }
}

/// Every jump in the stream points inside the stream.  Compilation
/// establishes this, and the interpreter relies on it.
pub open spec fn prog_wf(p: Seq<Opcode>) -> bool {
    forall|j: int| 0 <= j < p.len() ==> jump_target_ok(#[trigger] p[j], p.len() as int)
}

/// Whether every run length or stride carried by `op` is at least 1.
pub open spec fn op_counts_positive(op: Opcode) -> bool {
    match op {
        Opcode::IncPtr(n) => n >= 1,
        Opcode::DecPtr(n) => n >= 1,
        Opcode::IncData(n) => n >= 1,
        Opcode::DecData(n) => n >= 1,
        Opcode::LoopMovePtr(n, _) => n >= 1,
        Opcode::LoopMoveData(n, _) => n >= 1,
        _ => true,
    }
}

/// Every run length and stride in the stream is at least 1.  Compilation
/// establishes this: a run is never empty, and a collapsed loop carries a
/// stride taken from such a run.
pub open spec fn counts_positive(p: Seq<Opcode>) -> bool {
    forall|j: int| 0 <= j < p.len() ==> op_counts_positive(#[trigger] p[j])
}

/// The peephole optimizer never produces a jump opcode.
proof fn lemma_optimize_not_jump(s: Seq<Opcode>)
    ensures
        match spec_optimize(s) {
            Some(r) => !(r is JumpIfDataZero) && !(r is JumpIfDataNotZero),
            None => true,
        },
{
}

/// The peephole optimizer's replacement carries a stride taken from the
/// slice it replaces, so positive counts stay positive.
proof fn lemma_optimize_counts(s: Seq<Opcode>)
    requires
        counts_positive(s),
    ensures
        match spec_optimize(s) {
            Some(r) => op_counts_positive(r),
            None => true,
        },
{
    if s.len() == 1 {
        assert(op_counts_positive(s[0]));
    } else if s.len() == 4 {
        assert(op_counts_positive(s[1]));
        assert(op_counts_positive(s[3]));
    }
}

/// A run can reach at most to the end of the text.
proof fn lemma_run_len_bound(s: Seq<char>, i: int, c: char)
    requires
        0 <= i <= s.len(),
    ensures
        run_len(s, i, c) <= s.len() - i,
    decreases s.len() - i,
{
    if i < s.len() && s[i] == c {
        lemma_run_len_bound(s, i + 1, c);
    }
}

/// Compilation only ever emits jumps whose targets lie inside the stream,
/// whatever state the scan is in, provided the open brackets are listed in
/// increasing order and every emitted jump respects both the stream length
/// and every open bracket's position.
proof fn lemma_compile_rec_wf(src: Seq<char>, i: int, instrs: Seq<Opcode>, stack: Seq<usize>)
    requires
        instrs.len() + src.len() - i <= usize::MAX,
        counts_positive(instrs),
        forall|k: int| 0 <= k < stack.len() ==> (#[trigger] stack[k] as int) < instrs.len(),
        forall|k1: int, k2: int|
            0 <= k1 < k2 < stack.len() ==> stack[k1] < stack[k2],
        forall|j: int|
            0 <= j < instrs.len() ==> jump_target_ok(#[trigger] instrs[j], instrs.len() as int),
        forall|k: int, j: int|
            0 <= k < stack.len() && 0 <= j < stack[k] ==> #[trigger] jump_target_ok(
                instrs[j],
                stack[k] as int,
            ),
    ensures
        spec_compile_rec(src, i, instrs, stack) is Ok ==> prog_wf(
            spec_compile_rec(src, i, instrs, stack).unwrap(),
        ) && counts_positive(spec_compile_rec(src, i, instrs, stack).unwrap()),
    decreases (if i <= src.len() { src.len() - i } else { 0 }),
{
    if !(0 <= i < src.len()) {
        // the scan is done: the result is `instrs` itself, or an error
    } else {
        let c = src[i];
        if c == '>' {
            lemma_run_len_bound(src, i + 1, '>');
            let k = 1 + run_len(src, i + 1, '>');
            lemma_compile_rec_wf(src, i + k, instrs.push(Opcode::IncPtr(k as usize)), stack);
        } else if c == '<' {
            lemma_run_len_bound(src, i + 1, '<');
            let k = 1 + run_len(src, i + 1, '<');
            lemma_compile_rec_wf(src, i + k, instrs.push(Opcode::DecPtr(k as usize)), stack);
        } else if c == '+' {
            lemma_run_len_bound(src, i + 1, '+');
            let k = 1 + run_len(src, i + 1, '+');
            lemma_compile_rec_wf(src, i + k, instrs.push(Opcode::IncData(k as usize)), stack);
        } else if c == '-' {
            lemma_run_len_bound(src, i + 1, '-');
            let k = 1 + run_len(src, i + 1, '-');
            lemma_compile_rec_wf(src, i + k, instrs.push(Opcode::DecData(k as usize)), stack);
        } else if c == ',' {
            lemma_compile_rec_wf(src, i + 1, instrs.push(Opcode::ReadStdin), stack);
        } else if c == '.' {
            lemma_compile_rec_wf(src, i + 1, instrs.push(Opcode::WriteStdout), stack);
        } else if c == '[' {
            let pos = instrs.len() as usize;
            let instrs2 = instrs.push(Opcode::JumpIfDataZero(pos));
            let stack2 = stack.push(pos);
            assert forall|k1: int, k2: int|
                0 <= k1 < k2 < stack2.len() implies stack2[k1] < stack2[k2] by {
                if k2 == stack2.len() - 1 {
                    assert((stack[k1] as int) < instrs.len());
                }
            }
            assert forall|k: int, j: int|
                0 <= k < stack2.len() && 0 <= j < stack2[k] implies jump_target_ok(
                instrs2[j],
                stack2[k] as int,
            ) by {
                if k < stack2.len() - 1 {
                    assert(jump_target_ok(instrs[j], stack[k] as int));
                } else {
                    assert(jump_target_ok(instrs[j], instrs.len() as int));
                }
            }
            lemma_compile_rec_wf(src, i + 1, instrs2, stack2);
        } else if c == ']' {
            if stack.len() == 0 {
                // an unmatched close: the result is an error
            } else {
                let open = stack.last() as int;
                let body = instrs.subrange(open + 1, instrs.len() as int);
                let stack2 = stack.drop_last();
                lemma_optimize_not_jump(body);
                assert(counts_positive(body)) by {
                    assert forall|j: int| 0 <= j < body.len() implies op_counts_positive(
                        body[j],
                    ) by {
                        assert(op_counts_positive(instrs[open + 1 + j]));
                    }
                }
                lemma_optimize_counts(body);
                match spec_optimize(body) {
                    Some(r) => {
                        let instrs2 = instrs.subrange(0, open).push(r);
                        assert forall|j: int|
                            0 <= j < instrs2.len() implies jump_target_ok(
                            instrs2[j],
                            instrs2.len() as int,
                        ) by {
                            if j < open {
                                assert(jump_target_ok(instrs[j], stack[stack.len() - 1] as int));
                            }
                        }
                        assert forall|k: int|
                            0 <= k < stack2.len() implies (stack2[k] as int) < instrs2.len() by {
                            assert(stack[k] < stack[stack.len() - 1]);
                        }
                        assert forall|k: int, j: int|
                            0 <= k < stack2.len() && 0 <= j < stack2[k] implies jump_target_ok(
                            instrs2[j],
                            stack2[k] as int,
                        ) by {
                            assert(stack[k] < stack[stack.len() - 1]);
                            assert(jump_target_ok(instrs[j], stack[k] as int));
                        }
                        lemma_compile_rec_wf(src, i + 1, instrs2, stack2);
                    },
                    None => {
                        let instrs2 = instrs.update(
                            open,
                            Opcode::JumpIfDataZero(instrs.len() as usize),
                        ).push(Opcode::JumpIfDataNotZero(stack.last()));
                        assert forall|j: int|
                            0 <= j < instrs2.len() implies jump_target_ok(
                            instrs2[j],
                            instrs2.len() as int,
                        ) by {
                            if j < instrs.len() && j != open {
                                assert(jump_target_ok(instrs[j], instrs.len() as int));
                            }
                        }
                        assert forall|k: int|
                            0 <= k < stack2.len() implies (stack2[k] as int) < instrs2.len() by {
                            assert(stack[k] < stack[stack.len() - 1]);
                        }
                        assert forall|k: int, j: int|
                            0 <= k < stack2.len() && 0 <= j < stack2[k] implies jump_target_ok(
                            instrs2[j],
                            stack2[k] as int,
                        ) by {
                            assert(stack[k] < stack[stack.len() - 1]);
                            assert(jump_target_ok(instrs[j], stack[k] as int));
                        }
                        lemma_compile_rec_wf(src, i + 1, instrs2, stack2);
                    },
                }
            }
        } else {
            lemma_compile_rec_wf(src, i + 1, instrs, stack);
        }
    }
}

/// A program that compilation accepts has all its jumps resolved: each
/// target lies inside the stream.
pub proof fn lemma_compile_wf(src: Seq<char>)
    requires
        src.len() <= usize::MAX,
    ensures
        spec_compile(src) is Ok ==> prog_wf(spec_compile(src).unwrap()) && counts_positive(
            spec_compile(src).unwrap(),
        ),
{
    lemma_compile_rec_wf(src, 0, Seq::empty(), Seq::empty());
}

/// A run of `c` at `i` reaches exactly to the first position that does not
/// hold `c`.
pub proof fn lemma_run_len_exact(s: Seq<char>, i: int, j: int, c: char)
    requires
        0 <= i <= j <= s.len(),
        forall|k: int| i <= k < j ==> s[k] == c,
        j == s.len() || s[j] != c,
    ensures
        run_len(s, i, c) == j - i,
    decreases j - i,
{
    if i < j {
        lemma_run_len_exact(s, i + 1, j, c);
    }
}

impl Program {
    /// Pattern-match the exact opcode slice enclosed by one bracket pair
    /// against the three loop idioms, producing the collapsed replacement
    /// when one matches.
    pub fn optimize_loops(insn: &[Opcode]) -> (r: Option<Opcode>)
        ensures
            r == spec_optimize(insn@),
    {
        if insn.len() == 1 {
            match insn[0] {
                Opcode::DecData(c) => if c == 1 {
                    Some(Opcode::LoopSetToZero)
                } else {
                    None
                },
                Opcode::IncPtr(n) => Some(Opcode::LoopMovePtr(n, true)),
                Opcode::DecPtr(n) => Some(Opcode::LoopMovePtr(n, false)),
                _ => None,
            }
        } else if insn.len() == 4 {
            match (insn[0], insn[1], insn[2], insn[3]) {
                (Opcode::DecData(c), Opcode::IncPtr(n), Opcode::IncData(d), Opcode::DecPtr(m)) => {
                    if c == 1 && d == 1 && n == m {
                        Some(Opcode::LoopMoveData(n, true))
                    } else {
                        None
                    }
                },
                (Opcode::DecData(c), Opcode::DecPtr(n), Opcode::IncData(d), Opcode::IncPtr(m)) => {
                    if c == 1 && d == 1 && n == m {
                        Some(Opcode::LoopMoveData(n, false))
                    } else {
                        None
                    }
                },
                _ => None,
            }
        } else {
            None
        }
    }

    /// Compile source text into an optimized opcode stream.
    ///
    /// Characters outside the eight-symbol alphabet are comments and are
    /// ignored.  Fails on an unmatched bracket in either direction; the
    /// error carries the position the bracket holds in the opcode stream.
    pub fn from_source(source: String) -> (r: Result<Program, SyntaxError>)
        ensures
            match r {
                Ok(p) => spec_compile(source@) == Ok::<Seq<Opcode>, SyntaxError>(p@) && prog_wf(
                    p@,
                ) && counts_positive(p@),
                Err(e) => spec_compile(source@) == Err::<Seq<Opcode>, SyntaxError>(e),
            },
    {
        let s = source.as_str();
        let n = s.unicode_len();
        proof {
            lemma_compile_wf(source@);
        }
        let mut chars: Vec<char> = Vec::new();
        let mut j: usize = 0;
        while j < n
            invariant
                j <= n,
                n == source@.len(),
                s@ == source@,
                chars@ == source@.take(j as int),
            decreases n - j,
        {
            let c = s.get_char(j);
            chars.push(c);
            proof {
                assert(chars@ =~= source@.take(j + 1 as int));
            }
            j += 1;
        }
        proof {
            assert(chars@ =~= source@);
        }

        let mut instructions: Vec<Opcode> = Vec::new();
        let mut bracket_stack: Vec<usize> = Vec::new();
        let mut i: usize = 0;
        while i < n
            invariant
                i <= n,
                n == source@.len(),
                chars@ == source@,
                spec_compile_rec(source@, i as int, instructions@, bracket_stack@)
                    == spec_compile(source@),
                forall|k: int|
                    0 <= k < bracket_stack@.len() ==> (#[trigger] bracket_stack@[k] as int)
                        < instructions@.len(),
                forall|k1: int, k2: int|
                    0 <= k1 < k2 < bracket_stack@.len() ==> bracket_stack@[k1]
                        < bracket_stack@[k2],
            decreases n - i,
        {
            let c = chars[i];
            if c == '>' {
                let k = count_occ('>', &chars, i);
                proof {
                    assert(run_len(source@, i as int, '>') == 1 + run_len(
                        source@,
                        i + 1 as int,
                        '>',
                    ));
                }
                instructions.push(Opcode::IncPtr(k));
                i += k;
            } else if c == '<' {
                let k = count_occ('<', &chars, i);
                proof {
                    assert(run_len(source@, i as int, '<') == 1 + run_len(
                        source@,
                        i + 1 as int,
                        '<',
                    ));
                }
                instructions.push(Opcode::DecPtr(k));
                i += k;
            } else if c == '+' {
                let k = count_occ('+', &chars, i);
                proof {
                    assert(run_len(source@, i as int, '+') == 1 + run_len(
                        source@,
                        i + 1 as int,
                        '+',
                    ));
                }
                instructions.push(Opcode::IncData(k));
                i += k;
            } else if c == '-' {
                let k = count_occ('-', &chars, i);
                proof {
                    assert(run_len(source@, i as int, '-') == 1 + run_len(
                        source@,
                        i + 1 as int,
                        '-',
                    ));
                }
                instructions.push(Opcode::DecData(k));
                i += k;
            } else if c == ',' {
                instructions.push(Opcode::ReadStdin);
                i += 1;
            } else if c == '.' {
                instructions.push(Opcode::WriteStdout);
                i += 1;
            } else if c == '[' {
                let pos = instructions.len();
                instructions.push(Opcode::JumpIfDataZero(pos));
                bracket_stack.push(pos);
                i += 1;
            } else if c == ']' {
                if bracket_stack.len() == 0 {
                    return Err(SyntaxError::UnmatchedClose(instructions.len()));
                }
                let open = bracket_stack.pop().unwrap();
                let closing = instructions.len();
                let body = vstd::slice::slice_subrange(instructions.as_slice(), open + 1, closing);
                match Program::optimize_loops(body) {
                    Some(r) => {
                        instructions.truncate(open);
                        instructions.push(r);
                    },
                    None => {
                        instructions[open] = Opcode::JumpIfDataZero(closing);
                        instructions.push(Opcode::JumpIfDataNotZero(open));
                    },
                }
                i += 1;
            } else {
                i += 1;
            }
        }
        if bracket_stack.len() > 0 {
            return Err(SyntaxError::UnmatchedOpen(bracket_stack[0]));
        }
        Ok(Program { instructions })
    }
}

/// Count the consecutive occurrences of `val` in `chars` starting at
/// position `start`.
pub fn count_occ(val: char, chars: &Vec<char>, start: usize) -> (count: usize)
    requires
        start <= chars.len(),
    ensures
        count == run_len(chars@, start as int, val),
        start + count <= chars.len(),
{
    let mut j: usize = start;
    while j < chars.len() && chars[j] == val
        invariant
            start <= j <= chars.len(),
            forall|k: int| start <= k < j ==> chars@[k] == val,
        decreases chars.len() - j,
    {
        j += 1;
    }
    proof {
        lemma_run_len_exact(chars@, start as int, j as int, val);
    }
    j - start
}

} // verus!
