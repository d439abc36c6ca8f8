//! A compiler from the snek expression language to x86-64 instructions.
pub mod assemble;
pub mod ast;
pub mod behaviour;
pub mod codegen;
pub mod compiler;
pub mod context;
pub mod envmap;
pub mod error;
pub mod frame;
pub mod instr;
pub mod jumps;
pub mod laws;
pub mod listing;
pub mod text;
