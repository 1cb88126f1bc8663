//! A small embeddable scripting language: a lexer, a precedence-climbing
//! parser, a plain-data description of the syntax tree and a tree-walking
//! interpreter with host-callable functions.
pub mod ast;
pub mod interpreter;
pub mod parser;
pub mod token;
pub mod tokenizer;
