//! The verified core of a Lisp just-in-time compiler: the instruction
//! sequences it emits for a bytecode chunk, the operand stack that the native
//! code shares with its runtime helpers, and the decisions of the command line
//! and of the read-eval-print loop.

pub mod assembly;
pub mod bytecode;
pub mod cli;
pub mod convention;
pub mod double;
pub mod execution;
pub mod frame;
pub mod jit_abi;
pub mod jit_compiler;
pub mod layout;
pub mod machine;
pub mod model;
pub mod repl;
pub mod runtime;
pub mod simulation;
