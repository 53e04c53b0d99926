//! An interpreter for a small, statically-typed scripting language.
//!
//! Source text is tokenized, parsed into an abstract syntax tree, checked
//! for declared-type consistency, lowered to a flat bytecode sequence, and
//! executed on a stack machine whose variable environment persists across
//! input fragments.

pub mod strings;
pub mod num;
pub mod value;
pub mod errors;
pub mod env;
pub mod token;
pub mod tokenizer;
pub mod parser;
pub mod analyzer;
pub mod generator;
pub mod ast;
pub mod opcode;
pub mod runtime;
pub mod laws;
