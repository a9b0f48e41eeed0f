//! Constraint generation for a small circuit language: scope naming, a program
//! store, indicator-gated assignment, eager flattening of conditionals, loop
//! unrolling and function enforcement, plus the parser of input definition files.

pub mod assign;
pub mod ast;
pub mod errors;
pub mod expression;
pub mod function;
pub mod input;
pub mod program;
pub mod statement;
pub mod store;
pub mod value;
