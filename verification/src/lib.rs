//! A single-pass bytecode compiler and stack machine for arithmetic
//! expressions: source text is scanned into tokens, compiled by precedence
//! climbing into a chunk of bytecode, and executed on an operand stack.
//!
//! Numbers are IEEE-754 doubles, carried as their bit patterns. The library
//! moves, stores and negates them; reading a number from its text and the
//! four arithmetic operators are left to the host, which hands the values
//! of the literals to the compiler and the result of each operation to the
//! machine.
//!
//! - [`chunk`]: the bytecode container, its encoding and its listing.
//! - [`scanner`] and [`token`]: from source text to tokens.
//! - [`compiler`]: from tokens to bytecode.
//! - [`vm`]: the machine that executes a chunk.
//! - [`listing`] and [`program`]: what holds of the chunks that the
//!   compiler writes, listed and run.
//! - [`lox_errors`]: the faults of decoding and running.

pub mod chunk;
pub mod compiler;
pub mod listing;
pub mod lox_errors;
pub mod program;
pub mod scanner;
pub mod token;
pub mod vm;
