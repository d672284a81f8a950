use vstd::prelude::*;

use crate::ast::{Expr, Literal};
use crate::error::{Error, LexicalError};
use crate::interpreter::Interpreter;
use crate::parser::Parser;
use crate::scanner::Lexer;
use crate::token::{LexModel, Token, TokenModel};

verus! {

/// The first lexical error among scanned entries, if any.
pub open spec fn first_lex_error(s: Seq<LexModel>) -> Option<LexicalError>
    decreases s.len(),
{
    if s.len() == 0 {
        None
    } else {
        match s[0] {
            Err(e) => Some(e),
            Ok(_) => first_lex_error(s.drop_first()),
        }
    }
}

/// The tokens among scanned entries, in order.
pub open spec fn ok_tokens(s: Seq<LexModel>) -> Seq<TokenModel>
    decreases s.len(),
{
    if s.len() == 0 {
        Seq::empty()
    } else {
        match s[0] {
            Err(_) => ok_tokens(s.drop_first()),
            Ok(t) => seq![t] + ok_tokens(s.drop_first()),
        }
    }
}

/// What running `source` yields: the first lexical error, if scanning
/// recorded one; else the parse error, if parsing the tokens fails; else
/// the expression's value, or the runtime error.
pub open spec fn run_spec(source: Seq<char>, r: Result<Literal, Error>) -> bool {
    let scanned = crate::scanner::scan(source);
    match first_lex_error(scanned) {
        Some(e) => r == Err::<Literal, Error>(Error::Lex(e)),
        None => match crate::parser::expression(ok_tokens(scanned), 0) {
            Err(e) => r == Err::<Literal, Error>(Error::Parse(e)),
            Ok((tree, _)) => match crate::interpreter::eval(tree) {
                Ok(v) => r matches Ok(x) && x@ == v,
                Err(f) => r matches Err(Error::Interpret(err)) && crate::interpreter::reports(
                    err,
                    f,
                ),
            },
        },
    }
}

/// An input that opens a string and never closes it fails with one
/// unterminated-string error, on the line where the input ends, and is
/// never parsed.
pub proof fn lemma_unterminated_input(s: Seq<char>, r: Result<Literal, Error>)
    requires
        s.len() > 0,
        s[0] == '"',
        crate::scanner::find_char(s, 1, '"') == s.len(),
    ensures
        crate::scanner::scan(s).len() == 2,
        crate::scanner::scan(s)[1] is Ok,
        run_spec(s, r) <==> r == Err::<Literal, Error>(
            Error::Lex(
                LexicalError::UnterminatedString {
                    line: (1 + crate::scanner::newlines(s)) as usize,
                },
            ),
        ),
{
    crate::scanner::lemma_unterminated_string(s, 0, 1);
    assert(s.subrange(0, s.len() as int) =~= s);
}

/// Scans, parses and evaluates `buf`. A lexical error stops the pipeline
/// before parsing.
pub fn run(buf: &str) -> (r: Result<Literal, Error>)
    requires
        buf@.len() < usize::MAX,
    ensures
        run_spec(buf@, r),
{
    let scanned = Lexer::lex(buf);
    let ghost m = scanned@;
    let entries = scanned.into_vec();
    let n = entries.len();
    let mut tokens: Vec<Token> = Vec::new();
    let mut i: usize = 0;
    assert(m.subrange(0, n as int) =~= m);
    assert(crate::parser::tokens_model(tokens@) + ok_tokens(m) =~= ok_tokens(m));
    while i < n
        invariant
            n == entries.len(),
            m == crate::token::lex_models(entries@),
            m == crate::scanner::scan(buf@),
            i <= n,
            first_lex_error(m) == first_lex_error(m.subrange(i as int, n as int)),
            ok_tokens(m) == crate::parser::tokens_model(tokens@) + ok_tokens(
                m.subrange(i as int, n as int),
            ),
        decreases n - i,
    {
        let ghost rest = m.subrange(i as int, n as int);
        assert(rest.drop_first() =~= m.subrange(i + 1, n as int));
        assert(rest[0] == crate::token::lex_result_view(entries@[i as int]));
        match &entries[i] {
            Ok(t) => {
                let ghost before = tokens@;
                tokens.push(t.duplicate());
                assert(crate::parser::tokens_model(tokens@) =~= crate::parser::tokens_model(
                    before,
                ).push(t@));
                assert(crate::parser::tokens_model(before).push(t@) + ok_tokens(
                    m.subrange(i + 1, n as int),
                ) =~= crate::parser::tokens_model(before) + (seq![t@] + ok_tokens(
                    m.subrange(i + 1, n as int),
                )));
            },
            Err(e) => {
                return Err(Error::Lex(*e));
            },
        }
        i = i + 1;
    }
    assert(ok_tokens(m.subrange(n as int, n as int)) =~= Seq::<TokenModel>::empty());
    assert(crate::parser::tokens_model(tokens@) + Seq::<TokenModel>::empty()
        =~= crate::parser::tokens_model(tokens@));
    let mut parser = Parser::new(tokens);
    let tree: Expr = match parser.parse() {
        Ok(e) => e,
        Err(e) => {
            return Err(Error::Parse(e));
        },
    };
    match Interpreter::interpret(Box::new(tree)) {
        Ok(v) => Ok(v),
        Err(e) => Err(Error::Interpret(e)),
    }
}

} // verus!
