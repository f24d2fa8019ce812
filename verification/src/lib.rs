//! Laughter: a small statically typed teaching language compiled to bytecode
//! for a stack machine.

pub mod op;
pub mod text;
pub mod float;
pub mod value;
pub mod chunk;
pub mod display;
pub mod semantics;
pub mod vm;
pub mod lgb_format;
pub mod lgb;
pub mod lgb_laws;
pub mod token;
pub mod lexer;
pub mod ast;
pub mod parser;
pub mod grammar;
pub mod types;
pub mod typing;
pub mod check;
pub mod compile;
pub mod source;
pub mod manifest;
pub mod manifest_laws;
pub mod disasm;
pub mod lgpack;
pub mod loader;
pub mod paths;
