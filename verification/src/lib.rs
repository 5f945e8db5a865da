//! A small toolchain for an 8051-class microcontroller: a two-pass assembler
//! that turns textual mnemonics into machine code, and an execution engine
//! that interprets that machine code against a simulated register file,
//! status register, and on-chip RAM.

pub mod codegen;
pub mod emulator;
pub mod engine;
pub mod laws;
pub mod lexer;
pub mod numeral;
pub mod parser;
pub mod psw;
pub mod ram;
pub mod regs;
pub mod symtab;
pub mod text;
