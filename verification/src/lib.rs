//! A small language toolchain: a compiler front-end that turns a JSON-superset
//! source language into a typed, dependency-ordered program, and a stack-based
//! bytecode virtual machine with multiple isolated heaps and structured
//! exception handling.

pub mod analyzer;
pub mod ast;
pub mod bytecode;
pub mod codegen;
pub mod heap;
pub mod interpreter;
pub mod mark_sweep;
pub mod memory;
pub mod decimal;
pub mod execution_context;
pub mod floats;

pub mod opcode;
pub mod references;
pub mod runtime;
pub mod test_runner;

pub mod value;
