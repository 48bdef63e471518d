//! A compiler and interpreter for a minimal eight-instruction tape language,
//! together with a small builder for raw machine-code byte streams.
//!
//! The compiler tokenizes source text into an opcode stream, resolves loop
//! brackets, and applies peephole optimizations that collapse common loop
//! idioms into single opcodes.  The interpreter executes the optimized
//! stream against a fixed-size byte tape.
pub mod interpreter;
pub mod jit;
pub mod laws;
pub mod parser;
