//! Laws of the peephole optimizer and the compiler.
//!
//! Each proof function here states one guarantee of the compilation
//! pipeline as a theorem: which slices the optimizer collapses and to what,
//! and that a second look at collapsed code never changes it again.
use crate::parser::{
    lemma_run_len_exact, run_len, spec_compile, spec_compile_rec, spec_optimize, Opcode,
    SyntaxError,
};
use vstd::prelude::*;

verus! {

/// Optimization is idempotent: an opcode produced by the optimizer never
/// matches again, so any slice that contains one is left alone.
pub proof fn lemma_optimize_idempotent(s: Seq<Opcode>, r: Opcode, t: Seq<Opcode>)
    requires
        spec_optimize(s) == Some(r),
        t.contains(r),
    ensures
        spec_optimize(t) is None,
{
    assert(r is LoopSetToZero || r is LoopMovePtr || r is LoopMoveData);
    let i = choose|i: int| 0 <= i < t.len() && t[i] == r;
    if t.len() == 1 {
        assert(t[0] == r);
    } else if t.len() == 4 {
        assert(i == 0 || i == 1 || i == 2 || i == 3);
    }
}

/// The zero idiom, exactly: the optimizer collapses a slice to
/// `LoopSetToZero` exactly when the slice is one single-step decrement.
pub proof fn lemma_zero_idiom(s: Seq<Opcode>)
    ensures
        spec_optimize(s) == Some(Opcode::LoopSetToZero) <==> s == seq![Opcode::DecData(1usize)],
{
    if spec_optimize(s) == Some(Opcode::LoopSetToZero) {
        assert(s =~= seq![Opcode::DecData(1usize)]);
    }
    if s == seq![Opcode::DecData(1usize)] {
        assert(spec_optimize(s) == Some(Opcode::LoopSetToZero));
    }
}

/// The stride idiom, exactly: the optimizer collapses a slice to
/// `LoopMovePtr(n, d)` exactly when the slice is one cursor run of length
/// `n` in direction `d`.
pub proof fn lemma_stride_idiom(s: Seq<Opcode>, n: usize, rightward: bool)
    ensures
        spec_optimize(s) == Some(Opcode::LoopMovePtr(n, rightward)) <==> s == (if rightward {
            seq![Opcode::IncPtr(n)]
        } else {
            seq![Opcode::DecPtr(n)]
        }),
{
    if spec_optimize(s) == Some(Opcode::LoopMovePtr(n, rightward)) {
        if rightward {
            assert(s =~= seq![Opcode::IncPtr(n)]);
        } else {
            assert(s =~= seq![Opcode::DecPtr(n)]);
        }
    }
}

/// The transfer idiom, exactly: the optimizer collapses a slice to
/// `LoopMoveData(n, d)` exactly when the slice is a single-step decrement,
/// a cursor run of length `n` in direction `d`, a single-step increment,
/// and the cursor run back.
pub proof fn lemma_transfer_idiom(s: Seq<Opcode>, n: usize, rightward: bool)
    ensures
        spec_optimize(s) == Some(Opcode::LoopMoveData(n, rightward)) <==> s == (if rightward {
            seq![
                Opcode::DecData(1usize),
                Opcode::IncPtr(n),
                Opcode::IncData(1usize),
                Opcode::DecPtr(n),
            ]
        } else {
            seq![
                Opcode::DecData(1usize),
                Opcode::DecPtr(n),
                Opcode::IncData(1usize),
                Opcode::IncPtr(n),
            ]
        }),
{
    if spec_optimize(s) == Some(Opcode::LoopMoveData(n, rightward)) {
        if rightward {
            assert(s =~= seq![
                Opcode::DecData(1usize),
                Opcode::IncPtr(n),
                Opcode::IncData(1usize),
                Opcode::DecPtr(n),
            ]);
        } else {
            assert(s =~= seq![
                Opcode::DecData(1usize),
                Opcode::DecPtr(n),
                Opcode::IncData(1usize),
                Opcode::IncPtr(n),
            ]);
        }
    }
}

/// Compiling the zero idiom emits exactly one `LoopSetToZero` and no jump
/// opcodes for that region.
pub proof fn lemma_zero_idiom_compiles()
    ensures
        spec_compile(seq!['[', '-', ']']) == Ok::<Seq<Opcode>, SyntaxError>(
            seq![Opcode::LoopSetToZero],
        ),
{
    let src = seq!['[', '-', ']'];
    let instrs1 = Seq::<Opcode>::empty().push(Opcode::JumpIfDataZero(0));
    let stack1 = Seq::<usize>::empty().push(0);
    assert(spec_compile_rec(src, 0, Seq::empty(), Seq::empty()) == spec_compile_rec(
        src,
        1,
        instrs1,
        stack1,
    ));
    assert(run_len(src, 2, '-') == 0);
    let instrs2 = instrs1.push(Opcode::DecData(1usize));
    assert(spec_compile_rec(src, 1, instrs1, stack1) == spec_compile_rec(src, 2, instrs2, stack1));
    let body = instrs2.subrange(1, 2);
    assert(body =~= seq![Opcode::DecData(1usize)]);
    let instrs3 = instrs2.subrange(0, 0).push(Opcode::LoopSetToZero);
    let stack3 = stack1.drop_last();
    assert(spec_compile_rec(src, 2, instrs2, stack1) == spec_compile_rec(src, 3, instrs3, stack3));
    assert(stack3.len() == 0);
    assert(spec_compile_rec(src, 3, instrs3, stack3) == Ok::<Seq<Opcode>, SyntaxError>(instrs3));
    assert(instrs3 =~= seq![Opcode::LoopSetToZero]);
}

/// Compiling the stride idiom — one bracketed cursor run of length `n` —
/// emits exactly one `LoopMovePtr(n, d)` and no jump opcodes for that
/// region.
pub proof fn lemma_stride_idiom_compiles(n: nat, rightward: bool)
    requires
        1 <= n <= usize::MAX,
    ensures
        ({
            let c = if rightward {
                '>'
            } else {
                '<'
            };
            let src = seq!['['] + Seq::new(n, |i: int| c) + seq![']'];
            spec_compile(src) == Ok::<Seq<Opcode>, SyntaxError>(
                seq![Opcode::LoopMovePtr(n as usize, rightward)],
            )
        }),
{
    let c = if rightward {
        '>'
    } else {
        '<'
    };
    let src = seq!['['] + Seq::new(n, |i: int| c) + seq![']'];
    assert(src.len() == n + 2);
    assert(src[0] == '[');
    assert(forall|i: int| 1 <= i < n + 1 ==> src[i] == c);
    assert(src[n + 1 as int] == ']');

    let instrs1 = Seq::<Opcode>::empty().push(Opcode::JumpIfDataZero(0));
    let stack1 = Seq::<usize>::empty().push(0);
    assert(spec_compile_rec(src, 0, Seq::empty(), Seq::empty()) == spec_compile_rec(
        src,
        1,
        instrs1,
        stack1,
    ));
    lemma_run_len_exact(src, 1, n + 1 as int, c);
    assert(run_len(src, 1, c) == 1 + run_len(src, 2, c));
    let op = if rightward {
        Opcode::IncPtr(n as usize)
    } else {
        Opcode::DecPtr(n as usize)
    };
    let instrs2 = instrs1.push(op);
    assert(spec_compile_rec(src, 1, instrs1, stack1) == spec_compile_rec(
        src,
        n + 1 as int,
        instrs2,
        stack1,
    ));
    let body = instrs2.subrange(1, 2);
    assert(body =~= seq![op]);
    assert(spec_optimize(body) == Some(Opcode::LoopMovePtr(n as usize, rightward)));
    let instrs3 = instrs2.subrange(0, 0).push(Opcode::LoopMovePtr(n as usize, rightward));
    let stack3 = stack1.drop_last();
    assert(spec_compile_rec(src, n + 1 as int, instrs2, stack1) == spec_compile_rec(
        src,
        n + 2 as int,
        instrs3,
        stack3,
    ));
    assert(stack3.len() == 0);
    assert(spec_compile_rec(src, n + 2 as int, instrs3, stack3) == Ok::<
        Seq<Opcode>,
        SyntaxError,
    >(instrs3));
    assert(instrs3 =~= seq![Opcode::LoopMovePtr(n as usize, rightward)]);
}

/// Compiling the transfer idiom — a bracketed single-step decrement, a
/// cursor run of length `n`, a single-step increment and the run back —
/// emits exactly one `LoopMoveData(n, d)` and no jump opcodes for that
/// region.
pub proof fn lemma_transfer_idiom_compiles(n: nat, rightward: bool)
    requires
        1 <= n <= usize::MAX,
    ensures
        ({
            let c1 = if rightward {
                '>'
            } else {
                '<'
            };
            let c2 = if rightward {
                '<'
            } else {
                '>'
            };
            let src = seq!['[', '-'] + Seq::new(n, |i: int| c1) + seq!['+'] + Seq::new(
                n,
                |i: int| c2,
            ) + seq![']'];
            spec_compile(src) == Ok::<Seq<Opcode>, SyntaxError>(
                seq![Opcode::LoopMoveData(n as usize, rightward)],
            )
        }),
{
    let c1 = if rightward {
        '>'
    } else {
        '<'
    };
    let c2 = if rightward {
        '<'
    } else {
        '>'
    };
    let src = seq!['[', '-'] + Seq::new(n, |i: int| c1) + seq!['+'] + Seq::new(n, |i: int| c2)
        + seq![']'];
    assert(src.len() == 2 * n + 4);
    assert(src[0] == '[');
    assert(src[1] == '-');
    assert(forall|i: int| 2 <= i < n + 2 ==> src[i] == c1);
    assert(src[n + 2 as int] == '+');
    assert(forall|i: int| n + 3 <= i < 2 * n + 3 ==> src[i] == c2);
    assert(src[2 * n + 3 as int] == ']');

    let instrs1 = Seq::<Opcode>::empty().push(Opcode::JumpIfDataZero(0));
    let stack1 = Seq::<usize>::empty().push(0);
    assert(spec_compile_rec(src, 0, Seq::empty(), Seq::empty()) == spec_compile_rec(
        src,
        1,
        instrs1,
        stack1,
    ));
    assert(run_len(src, 2, '-') == 0);
    let instrs2 = instrs1.push(Opcode::DecData(1usize));
    assert(spec_compile_rec(src, 1, instrs1, stack1) == spec_compile_rec(src, 2, instrs2, stack1));
    lemma_run_len_exact(src, 2, n + 2 as int, c1);
    assert(run_len(src, 2, c1) == 1 + run_len(src, 3, c1));
    let op_there = if rightward {
        Opcode::IncPtr(n as usize)
    } else {
        Opcode::DecPtr(n as usize)
    };
    let instrs3 = instrs2.push(op_there);
    assert(spec_compile_rec(src, 2, instrs2, stack1) == spec_compile_rec(
        src,
        n + 2 as int,
        instrs3,
        stack1,
    ));
    assert(run_len(src, n + 3 as int, '+') == 0);
    let instrs4 = instrs3.push(Opcode::IncData(1usize));
    assert(spec_compile_rec(src, n + 2 as int, instrs3, stack1) == spec_compile_rec(
        src,
        n + 3 as int,
        instrs4,
        stack1,
    ));
    lemma_run_len_exact(src, n + 3 as int, 2 * n + 3 as int, c2);
    assert(run_len(src, n + 3 as int, c2) == 1 + run_len(src, n + 4 as int, c2));
    let op_back = if rightward {
        Opcode::DecPtr(n as usize)
    } else {
        Opcode::IncPtr(n as usize)
    };
    let instrs5 = instrs4.push(op_back);
    assert(spec_compile_rec(src, n + 3 as int, instrs4, stack1) == spec_compile_rec(
        src,
        2 * n + 3 as int,
        instrs5,
        stack1,
    ));
    let body = instrs5.subrange(1, 5);
    assert(body =~= seq![Opcode::DecData(1usize), op_there, Opcode::IncData(1usize), op_back]);
    assert(spec_optimize(body) == Some(Opcode::LoopMoveData(n as usize, rightward)));
    let instrs6 = instrs5.subrange(0, 0).push(Opcode::LoopMoveData(n as usize, rightward));
    let stack6 = stack1.drop_last();
    assert(spec_compile_rec(src, 2 * n + 3 as int, instrs5, stack1) == spec_compile_rec(
        src,
        2 * n + 4 as int,
        instrs6,
        stack6,
    ));
    assert(stack6.len() == 0);
    assert(spec_compile_rec(src, 2 * n + 4 as int, instrs6, stack6) == Ok::<
        Seq<Opcode>,
        SyntaxError,
    >(instrs6));
    assert(instrs6 =~= seq![Opcode::LoopMoveData(n as usize, rightward)]);
}

} // verus!

