//! A small textual language for graph edits, and its interpreter.

pub mod ast;
pub mod interpreter;
pub mod parser;

pub use ast::DslCommand;


