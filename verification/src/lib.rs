//! A small dynamically typed scripting language: a lexer that turns source
//! text into tokens, a recursive-descent parser that builds an abstract
//! syntax tree, and a tree-walking interpreter that executes that tree
//! against a mutable variable store.
//!
//! Each stage's behaviour is defined by spec functions — the tokens a text
//! denotes (`scanner`), the program a token sequence denotes (`parser`), and
//! the store and output a program produces (`interpreter`) — and each
//! executable stage is proved to follow its definition exactly. Numbers are
//! exact rationals (`number`); every invalid operation is a reported error,
//! never an abort.

pub mod ast;
pub mod decimal;
pub mod environment;
pub mod interpreter;
pub mod number;
pub mod parser;
pub mod scanner;
pub mod strutil;
pub mod utils;
pub mod value;
