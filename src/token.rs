use vstd::prelude::*;

use crate::error::LexicalError;

verus! {

/// The kind of a token.
#[derive(Debug, Clone, Copy, PartialEq, Eq, Structural)]
pub enum TokenKind {
    // Single-character tokens
    LeftParen,
    RightParen,
    LeftBrace,
    RightBrace,
    Comma,
    Dot,
    Minus,
    Plus,
    Semicolon,
    Slash,
    Star,
    // One or two character tokens
    Bang,
    BangEqual,
    Equal,
    EqualEqual,
    Greater,
    GreaterEqual,
    Less,
    LessEqual,
    // Literals
    Identifier,
    String,
    Number,
    // Keywords
    And,
    Class,
    Else,
    False,
    Fun,
    For,
    If,
    Nil,
    Or,
    Print,
    Return,
    Super,
    This,
    True,
    Var,
    While,
    Eof,
}

/// A token: its kind, the source text it was scanned from (empty for the
/// end-of-input token), and the 1-based line on which it ends.
#[derive(Debug, PartialEq)]
pub struct Token {
    pub kind: TokenKind,
    pub lexeme: String,
    pub line: usize,
}

/// The mathematical content of a token.
pub struct TokenModel {
    pub kind: TokenKind,
    pub lexeme: Seq<char>,
    pub line: nat,
}

impl View for Token {
    type V = TokenModel;

    open spec fn view(&self) -> TokenModel {
        TokenModel { kind: self.kind, lexeme: self.lexeme@, line: self.line as nat }
    }
}

impl Token {
    pub fn new(kind: TokenKind, lexeme: String, line: usize) -> (r: Self)
        ensures
            r.kind == kind,
            r.lexeme == lexeme,
            r.line == line,
    {
        Token { kind, lexeme, line }
    }

    pub fn kind(&self) -> (r: TokenKind)
        ensures
            r == self.kind,
    {
        self.kind
    }

    pub fn line(&self) -> (r: usize)
        ensures
            r == self.line,
    {
        self.line
    }

    /// A token with the same kind, text and line.
    pub fn duplicate(&self) -> (r: Self)
        ensures
            r@ == self@,
    {
        Token { kind: self.kind, lexeme: self.lexeme.clone(), line: self.line }
    }
}

/// The outcome of scanning one lexeme.
pub type LexResult = Result<Token, LexicalError>;

/// The model of one scanned lexeme.
pub type LexModel = Result<TokenModel, LexicalError>;

pub open spec fn lex_result_view(r: LexResult) -> LexModel {
    match r {
        Ok(t) => Ok(t@),
        Err(e) => Err(e),
    }
}

/// The scanner's output: one entry per lexeme, ending with the end-of-input
/// token.
#[derive(Debug)]
pub struct Tokens(pub Vec<LexResult>);

pub open spec fn lex_models(v: Seq<LexResult>) -> Seq<LexModel> {
    v.map_values(|r: LexResult| lex_result_view(r))
}

impl View for Tokens {
    type V = Seq<LexModel>;

    open spec fn view(&self) -> Seq<LexModel> {
        lex_models(self.0@)
    }
}

impl Tokens {
    pub fn new(tokens: Vec<LexResult>) -> (r: Self)
        ensures
            r.0 == tokens,
    {
        Tokens(tokens)
    }

    pub fn into_vec(self) -> (r: Vec<LexResult>)
        ensures
            r == self.0,
    {
        self.0
    }
}

} // verus!
