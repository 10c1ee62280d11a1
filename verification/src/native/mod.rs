//! The `.rab` bytecode file format and the register machine that runs it.
pub mod rab;
pub mod vm;
