//! A small dynamically typed language: a lexer, a recursive-descent parser
//! and a tree-walking evaluator with lexically scoped variables.
//!
//! Each stage is stated as spec functions and the executable code is proved
//! to compute exactly that:
//! - `lexspec` gives the lexical grammar; `scanner` implements it;
//! - `grammar` gives the parser's results; `parser` implements them;
//! - `semantics` gives evaluation; `environment` and `interpreter` implement it.
//!
//! Numbers are IEEE 754 binary64 values held as bit patterns (`value`). The
//! operations that round (decoding a literal, `+ - * /`), the decoded text of
//! a number literal and the formatting of numbers for output come from the
//! caller; everything else is computed here.
use vstd::prelude::*;

pub mod token;
pub mod lexspec;
pub mod scanner;
pub mod expr;
pub mod stmt;
pub mod grammar;
pub mod parser;
pub mod value;
pub mod environment;
pub mod semantics;
pub mod interpreter;

verus! {

} // verus!
