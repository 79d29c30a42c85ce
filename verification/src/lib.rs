//! A two-pass assembler for the Hack 16-bit instruction set.
//!
//! A source text holds one instruction, label declaration, comment or blank
//! line per line. The first pass binds every label to the address of the
//! instruction that follows its declaration; the second encodes each
//! instruction as a word of 16 binary digits and binds the names that are
//! left to variable slots. [`parser::Parser::handle`] runs both.
//!
//! Every function states what it computes over sequences of characters,
//! maps and integers:
//!
//! - [`text`]: whitespace, comments and lines;
//! - [`binary`]: the binary digits of a word;
//! - [`tables`]: the mnemonics of the compute-instruction;
//! - [`symbols`]: the symbol table;
//! - [`instruction`]: the meaning of one line;
//! - [`program`]: the meaning of a whole text;
//! - [`parser`]: the assembler;
//! - [`laws`]: what holds of every run.

pub mod binary;
pub mod error;
pub mod instruction;
pub mod laws;
pub mod parser;
pub mod program;
pub mod symbols;
pub mod tables;
pub mod text;
