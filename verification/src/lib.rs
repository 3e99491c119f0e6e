//! LIAB: a small scripting language — lexer, parser, bytecode compiler and
//! stack virtual machine, verified with Verus.
mod text;
pub mod error;
pub mod lexer;
pub mod ast;
pub mod parser;
pub mod value;
pub mod debug_text;
pub mod compiler;
pub mod vm;
pub mod disassembler;
pub mod environment;
pub mod interpreter;
