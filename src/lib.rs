//! An interpreter for a small dynamically typed, lexically scoped scripting language: a
//! lexer (`lexer`), a recursive-descent parser (`parser`) over the syntax trees of `expr` and
//! `stmt`, and a tree-walking evaluator (`interpreter`) whose steps are proved to follow the
//! big-step semantics of `semantics`. Scopes live in an arena (`environment`) so that closures
//! and the evaluator share them; numbers are exact rationals (`number`).

pub mod expr;
pub mod number;
pub mod procedure;
pub mod semantics;
pub mod stmt;
pub mod text;
pub mod token;
pub mod vari;
pub mod lexer;
pub mod environment;
pub mod interpreter;
pub mod parser;
pub mod syntax;
