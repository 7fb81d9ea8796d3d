//! A tiny Lisp-like scripting front end: a reader pipeline that turns
//! source text into expression trees, and a recursive evaluator that
//! interprets those trees against a mutable symbol environment.

pub mod eval;
pub mod exp;
pub mod forms;
pub mod frontend;
pub mod parse;
pub mod parser;
pub mod script;
pub mod text;
