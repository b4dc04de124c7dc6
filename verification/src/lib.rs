//! A two-pass assembler for the 6502 instruction set.
//!
//! Source text is handed in as a sequence of byte lines.  A lexer turns the
//! lines into a token stream, a first pass collects label definitions into a
//! symbol table while checking syntax, and a second pass matches every
//! instruction against a fixed grammar table, evaluates operand expressions,
//! and emits the object code as a byte buffer.

pub mod insertable_num;
pub mod instruction;
pub mod lexical_analyzer;
pub mod peek_wrapper;
pub mod gen_errors;
pub mod symbol_table;
pub mod stack;
pub mod assembler;

use vstd::prelude::*;

verus! {

} // verus!
