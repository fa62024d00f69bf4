//! A small scripting language: a lexer, a Pratt parser, a compiler to byte
//! code and a stack-based virtual machine that runs the byte code.

pub mod opcode;
pub mod value;
pub mod text;
pub mod vm;
pub mod arith;
pub mod machine;
pub mod ast;
pub mod compiler;
pub mod codegen;
pub mod lexer;
pub mod parser;
pub mod printer;
