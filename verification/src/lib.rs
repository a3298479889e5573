//! A small stack-tape virtual machine for Brainfuck and its token-substitution
//! dialects ("Ook!" and a compressed three-symbol variant).
//!
//! Three translators map surface text to one canonical opcode sequence, a
//! bracket matcher precomputes the jump table for the loop opcodes, and the
//! execution engine interprets the sequence against a bounded byte tape.

pub mod engine;
pub mod matcher;
pub mod opcode;
mod text;
pub mod translate;

pub use engine::Intepreter;
pub use engine::RunError;
pub use opcode::Opcode;
pub use translate::apply_short_ook_mapping;
pub use translate::brainfuck_to_bytecode;
pub use translate::ook_to_bytecode;
pub use translate::parse_short_ook_commands;
