//! A single-pass bytecode compiler and stack-based virtual machine for the Lox
//! expression language, with every function proved against its contract.

pub mod chunk;
pub mod compiler;
pub mod debug;
pub mod errors;
pub mod instructions;
pub mod interpreter;
pub mod object;
pub mod run_length_encoding;
pub mod scanner;
pub mod stack_effect;
pub mod string_interner;
pub mod value;
pub mod virtual_machine;
