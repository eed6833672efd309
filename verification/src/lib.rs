//! An interpreter for a Brainfuck-derived language extended with eight
//! opcodes for raw TCP socket I/O.
//!
//! The compiler front end (tokenizer and run-length-folding, bracket-nesting
//! instruction builder) lives in [`parser`]; the execution engine that walks
//! the instruction tree lives in [`runner`].

pub mod parser;
pub mod runner;
