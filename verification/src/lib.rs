//! An interpreter for a small dynamically typed scripting language, with
//! lexical scoping and first-class functions.
//!
//! Source text goes through the `scanner`, which turns it into tokens, and the
//! `parser`, which turns the tokens into statement trees after the `grammar`;
//! the `interpreter` then walks the trees. It runs step by step over an
//! explicit stack of work (`frame`, `machine`), following the rules in
//! `semantics`, and leaves to its `host` what it cannot do itself: writing
//! output and computing with numbers. `code_runner` ties the three together.

pub mod code_runner;
pub mod environment;
pub mod error;
pub mod expr;
pub mod expressions;
pub mod frame;
pub mod grammar;
pub mod host;
pub mod interpreter;
pub mod keywords;
pub mod literal;
pub mod machine;
pub mod parser;
pub mod productions;
pub mod rlox_function;
pub mod scanner;
pub mod semantics;
pub mod soundness;
pub mod spelling;
pub mod statements;
pub mod stmt;
pub mod token;
pub mod token_type;
