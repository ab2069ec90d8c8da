//! A small arithmetic language: numbers, identifiers, the four binary
//! operators and parentheses, with `name = expression;` assignments before a
//! final expression whose value is the program's result.
//!
//! The pipeline is verified end to end: `lexer` turns source text into
//! tokens, `parser` reorders an expression into postfix form, `eval` runs
//! the postfix form on a value stack, and `compiler` ties them together.
//! Values are generic: the caller supplies the conversion of numerals and the
//! four arithmetic routines, and the results are stated in terms of them.

pub mod operator;
pub mod token;
pub mod lexer;
pub mod parser;
pub mod symbols;
pub mod eval;
pub mod compiler;
pub mod render;
pub mod primitives;
pub mod traits;
pub mod laws;
pub mod precedence;
