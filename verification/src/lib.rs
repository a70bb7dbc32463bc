//! An interpreter for a small pointer-oriented esoteric language.
//!
//! The pipeline has three stages: a lexer that turns source text into
//! tokens, a parser that folds tokens into a flat statement sequence, and
//! an evaluator that reduces the statements against a single cursor value
//! and a value-to-value memory.  Arbitrary-precision integers and decimal
//! floats are computed by outside crates behind trusted wrappers; all the
//! surrounding logic is verified against a mathematical model of the
//! machine state.

pub mod ast;
pub mod bignum;
pub mod clock;
pub mod laws;
pub mod lexer;
pub mod memory;
pub mod parse_error;
pub mod parser;
pub mod parser_spec;
pub mod run;
pub mod semantics;
pub mod token;
pub mod floats;
pub mod strutil;
