//! A small Lisp: tokenizer, parser, scoped environment and evaluator.

pub mod env;
pub mod error;
pub mod eval;
pub mod laws;
pub mod lexer;
pub mod lisp_expr;
pub mod parser;
pub mod repl;
pub mod semantics;
pub mod text;
pub mod token;
