use vstd::prelude::*;

use crate::ast::Literal;

verus! {

/// An error found while scanning one lexeme.
#[derive(Debug, Clone, Copy, PartialEq, Eq, Structural)]
pub enum LexicalError {
    UnexpectedCharacter { char: char, line: usize },
    UnterminatedString { line: usize },
    NaN { line: usize },
}

/// A defect of the parser: a token the grammar does not expect to meet.
#[derive(Debug, Clone, Copy, PartialEq, Eq, Structural)]
pub enum ParseErrorInternal {
    UnhandledToken { line: usize },
}

/// The first error met while parsing.
#[derive(Debug, Clone, Copy, PartialEq, Eq, Structural)]
pub enum ParseError {
    ExpectedClosingParenAfterExpr { line: usize },
    UnexpectedEof,
    ExpectExpression,
    Internal(ParseErrorInternal),
}

/// The first ill-typed operation met while evaluating, with the values it
/// was applied to.
#[derive(Debug, PartialEq)]
pub enum RunTimeError {
    UnexpectedUnaryToken { line: usize, literal: Literal },
    UnexpectedBinaryToken { line: usize, left: Literal, right: Literal },
}

/// An error of the whole pipeline.
#[derive(Debug, PartialEq)]
pub enum Error {
    Lex(LexicalError),
    Parse(ParseError),
    Interpret(RunTimeError),
}

/// The error that the pipeline hands to its caller.
#[derive(Debug)]
pub struct PublicError(pub Error);

impl PublicError {
    pub fn new(e: Error) -> (r: Self)
        ensures
            r.0 == e,
    {
        PublicError(e)
    }
}

} // verus!
