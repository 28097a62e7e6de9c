//! A tree-walking evaluator for a small imperative expression language with
//! integer and boolean values, lexically scoped variables and conditionals.
pub mod ast;
pub mod context;
pub mod interpreter;
pub mod laws;
