//! Execution engine for a minimalist tape-based language with two source
//! dialects: a one-character-per-operation symbol dialect and a literal
//! keyword dialect over the same instruction set.
//!
//! The crate is split leaf-first: [`ops`] holds the operation set and the
//! dialect mapping tables, [`tokenizer`] turns source text into an
//! operation sequence and validates bracket balance, [`machine`] runs an
//! operation sequence as a stateful virtual machine over a fixed-size
//! wrapping tape with suspend/resume semantics for input, and
//! [`translate`] rewrites symbol-dialect text into keyword-dialect text
//! and proves the rewrite preserves the program.

pub mod machine;
pub mod ops;
pub mod tokenizer;
pub mod translate;
