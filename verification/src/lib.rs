//! A small dynamically typed scripting language: a parser that turns source
//! bytes into an abstract syntax tree, and a tree-walking evaluator that runs
//! the tree against a lexically scoped stack of name bindings.

pub mod ast;
pub mod bytes;
pub mod eval;
pub mod fmt;
pub mod laws;
pub mod lexer;
pub mod ops;
pub mod parser;
pub mod runtime;
pub mod storage;
