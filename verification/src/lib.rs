//! Rua: a small Chinese-keyword scripting language — lexer, parser,
//! tree-walking interpreter, integer bytecode VM, x86-64 code generator and
//! the `.rab` bytecode loader with its register machine.
use vstd::prelude::*;

pub mod text;
pub mod ast;
pub mod lexer;
pub mod parser;
pub mod vm;
pub mod jit;
pub mod runtime;
pub mod native;
pub mod listing;

verus! {
} // verus!
