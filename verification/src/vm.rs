//! The virtual machine: instruction codec, call frames and execution engine.

pub mod cpu;
pub mod frame;
pub mod instruction;
