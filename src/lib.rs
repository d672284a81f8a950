//! A small expression language: scanning source text into tokens, parsing
//! tokens into an expression tree by recursive descent, and evaluating the
//! tree into a value. Every stage is verified against a mathematical model
//! of its behaviour. A number value is held as the arithmetic term that
//! denotes it (see `number::NumTerm`); its double-precision value is
//! computed by the host.
use vstd::prelude::*;

pub mod ast;
pub mod error;
pub mod interpreter;
pub mod number;
pub mod parser;
pub mod run;
pub mod scanner;
pub mod token;

pub use crate::interpreter::Interpreter;
pub use crate::parser::Parser;
pub use crate::run::run;
pub use crate::scanner::Lexer;

verus! {

} // verus!
