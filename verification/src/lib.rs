//! A small compiler toolchain for the Jolang language: lexer, parser,
//! scopes, an intermediate representation and its bytecode object format.

pub mod chars;
pub mod text;
pub mod numbers;
pub mod source;
pub mod compiler_error;
pub mod lexer;
pub mod ast;
pub mod builder;
pub mod ir;
pub mod bytecode;
pub mod printer;
pub mod scope;
pub mod ffi;
pub mod platform;
pub mod tape;
pub mod generator;
