//! A minimal stack-based bytecode virtual machine.
//!
//! The crate is organised around three cores: the instruction codec
//! ([`vm::instruction`]), which packs an opcode and two operands into a
//! 32-bit word and back; the execution engine ([`vm::cpu`]), which runs a
//! program word by word over an operand stack, two condition flags and a
//! call-frame stack; and the call frames themselves ([`vm::frame`]), which
//! give every subroutine invocation its own variable scope and return
//! address. Around the cores sit a lexer and an assembler for the textual
//! assembly surface ([`parser`]).

pub mod parser;
pub mod vm;
