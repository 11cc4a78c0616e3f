//! Puzzle solvers built around a compiler for an eight-opcode, three-register
//! virtual machine (the "octal VM").
//!
//! The VM modules form the core: `parse` reads a program text, `vm` gives the
//! machine its reference semantics, `emit` translates a program into a stream
//! of low-level operations with a label table for jump targets, `machine`
//! executes that stream, and `correct` proves that the translated stream
//! produces the same registers and output tape as the reference semantics.
//! `day17` chains them into the puzzle's pipeline; `day1`, `day12` and
//! `day22` are independent solvers.

pub mod correct;
pub mod day1;
pub mod day12;
pub mod day17;
pub mod day22;
pub mod emit;
pub mod machine;
pub mod parse;
pub mod render;
pub mod vm;

pub use vm::Instr;
