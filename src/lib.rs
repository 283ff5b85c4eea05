//! A tree-walking interpreter for a small Lox-family scripting language:
//! a lexer, a precedence-climbing parser and an evaluator with lexically
//! scoped environments, each stated against a mathematical model.

pub mod text;
pub mod tokens;
pub mod lexer;
pub mod ast;
pub mod parser;
pub mod env;
pub mod eval;
pub mod interp;
