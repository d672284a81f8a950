use rlox::error::LexicalError;
use rlox::token::{LexResult, Token, TokenKind};
use rlox::Lexer;

fn tok(kind: TokenKind, lexeme: &str, line: usize) -> Token {
    Token::new(kind, lexeme.to_string(), line)
}

fn eof(line: usize) -> Token {
    tok(TokenKind::Eof, "", line)
}

/// A number token, whose lexeme denotes the double `v`.
fn number(v: f64, lexeme: &str, line: usize) -> Token {
    assert_eq!(lexeme.parse::<f64>(), Ok(v));
    tok(TokenKind::Number, lexeme, line)
}

fn lex(input: &str) -> Vec<LexResult> {
    Lexer::lex(input).into_vec()
}

fn lex_tokens(input: &str) -> Vec<Token> {
    lex(input).into_iter().flatten().collect()
}

#[test]
fn scanning_single_character_lexemes_works() {
    let input = "(){},.-+;=*!<>/";
    assert_eq!(
        lex_tokens(input),
        vec![
            tok(TokenKind::LeftParen, "(", 1),
            tok(TokenKind::RightParen, ")", 1),
            tok(TokenKind::LeftBrace, "{", 1),
            tok(TokenKind::RightBrace, "}", 1),
            tok(TokenKind::Comma, ",", 1),
            tok(TokenKind::Dot, ".", 1),
            tok(TokenKind::Minus, "-", 1),
            tok(TokenKind::Plus, "+", 1),
            tok(TokenKind::Semicolon, ";", 1),
            tok(TokenKind::Equal, "=", 1),
            tok(TokenKind::Star, "*", 1),
            tok(TokenKind::Bang, "!", 1),
            tok(TokenKind::Less, "<", 1),
            tok(TokenKind::Greater, ">", 1),
            tok(TokenKind::Slash, "/", 1),
            eof(1),
        ]
    )
}

#[test]
fn scanning_double_character_lexemes_works() {
    let input = " != <= >= == = =\n!\n=";
    assert_eq!(
        lex_tokens(input),
        vec![
            tok(TokenKind::BangEqual, "!=", 1),
            tok(TokenKind::LessEqual, "<=", 1),
            tok(TokenKind::GreaterEqual, ">=", 1),
            tok(TokenKind::EqualEqual, "==", 1),
            tok(TokenKind::Equal, "=", 1),
            tok(TokenKind::Equal, "=", 1),
            tok(TokenKind::Bang, "!", 2),
            tok(TokenKind::Equal, "=", 3),
            eof(3),
        ]
    )
}

#[test]
fn ignoring_whitespaces_works() {
    let input = "(   \r)    {\t     }\n\n\n\n!";
    assert_eq!(
        lex_tokens(input),
        vec![
            tok(TokenKind::LeftParen, "(", 1),
            tok(TokenKind::RightParen, ")", 1),
            tok(TokenKind::LeftBrace, "{", 1),
            tok(TokenKind::RightBrace, "}", 1),
            tok(TokenKind::Bang, "!", 5),
            eof(5),
        ]
    )
}

#[test]
fn scanning_basic_valid_strings_works() {
    let input = "\"this is a string\"";
    assert_eq!(
        lex_tokens(input),
        vec![tok(TokenKind::String, r#""this is a string""#, 1), eof(1)]
    )
}

#[test]
fn scanning_multiline_strings_works() {
    let input = "\"this is a string\nacross multiple lines\"";
    assert_eq!(
        lex_tokens(input),
        vec![
            tok(TokenKind::String, "\"this is a string\nacross multiple lines\"", 2),
            eof(2),
        ]
    )
}

#[test]
fn scanning_unterminated_string_produces_error() {
    let input = "\"this is not a string";
    assert_eq!(
        lex(input),
        vec![Err(LexicalError::UnterminatedString { line: 1 }), Ok(eof(1))]
    )
}

#[test]
fn scanning_valid_integer_works() {
    let input = "  1 20 4212";
    assert_eq!(
        lex(input),
        vec![
            Ok(number(1.0, "1", 1)),
            Ok(number(20.0, "20", 1)),
            Ok(number(4212.0, "4212", 1)),
            Ok(eof(1)),
        ]
    )
}

#[test]
fn scanning_valid_fractional_number_works() {
    let input = "  0.0001 2.0 421.2";
    assert_eq!(
        lex(input),
        vec![
            Ok(number(0.0001, "0.0001", 1)),
            Ok(number(2.0, "2.0", 1)),
            Ok(number(421.2, "421.2", 1)),
            Ok(eof(1)),
        ]
    )
}

#[test]
fn scanning_invalid_fractional_number_works() {
    let input = "  0. 2123. .2 .0012";
    assert_eq!(
        lex(input),
        vec![
            Ok(number(0.0, "0", 1)),
            Ok(tok(TokenKind::Dot, ".", 1)),
            Ok(number(2123.0, "2123", 1)),
            Ok(tok(TokenKind::Dot, ".", 1)),
            Ok(tok(TokenKind::Dot, ".", 1)),
            Ok(number(2.0, "2", 1)),
            Ok(tok(TokenKind::Dot, ".", 1)),
            Ok(number(12.0, "0012", 1)),
            Ok(eof(1)),
        ]
    )
}

#[test]
fn scanning_identifiers_works() {
    let input = "some_identifier _anotherOne als0 c1 0no 001_no ";
    assert_eq!(
        lex_tokens(input),
        vec![
            tok(TokenKind::Identifier, "some_identifier", 1),
            tok(TokenKind::Identifier, "_anotherOne", 1),
            tok(TokenKind::Identifier, "als0", 1),
            tok(TokenKind::Identifier, "c1", 1),
            number(0.0, "0", 1),
            tok(TokenKind::Identifier, "no", 1),
            number(1.0, "001", 1),
            tok(TokenKind::Identifier, "_no", 1),
            eof(1),
        ]
    )
}

#[test]
fn scanning_reserved_words_works() {
    let input = "and class else false for fun if nil or print return super this true var while";
    assert_eq!(
        lex_tokens(input),
        vec![
            tok(TokenKind::And, "and", 1),
            tok(TokenKind::Class, "class", 1),
            tok(TokenKind::Else, "else", 1),
            tok(TokenKind::False, "false", 1),
            tok(TokenKind::For, "for", 1),
            tok(TokenKind::Fun, "fun", 1),
            tok(TokenKind::If, "if", 1),
            tok(TokenKind::Nil, "nil", 1),
            tok(TokenKind::Or, "or", 1),
            tok(TokenKind::Print, "print", 1),
            tok(TokenKind::Return, "return", 1),
            tok(TokenKind::Super, "super", 1),
            tok(TokenKind::This, "this", 1),
            tok(TokenKind::True, "true", 1),
            tok(TokenKind::Var, "var", 1),
            tok(TokenKind::While, "while", 1),
            eof(1),
        ]
    )
}

#[test]
fn scanning_multiple_lines_works() {
    let input = "(\n)\n{\n}\n";
    assert_eq!(
        lex_tokens(input),
        vec![
            tok(TokenKind::LeftParen, "(", 1),
            tok(TokenKind::RightParen, ")", 2),
            tok(TokenKind::LeftBrace, "{", 3),
            tok(TokenKind::RightBrace, "}", 4),
            eof(5),
        ]
    )
}

#[test]
fn scanning_comments_works() {
    let input = "() // this is a comment\n{} // another one";
    assert_eq!(
        lex_tokens(input),
        vec![
            tok(TokenKind::LeftParen, "(", 1),
            tok(TokenKind::RightParen, ")", 1),
            tok(TokenKind::LeftBrace, "{", 2),
            tok(TokenKind::RightBrace, "}", 2),
            eof(2),
        ]
    )
}

#[test]
fn single_line_input_reports_line_one_everywhere() {
    let input = "(1 + \"two\") @ three // note";
    for entry in lex(input) {
        let line = match entry {
            Ok(t) => t.line,
            Err(LexicalError::UnexpectedCharacter { line, .. }) => line,
            Err(LexicalError::UnterminatedString { line }) => line,
            Err(LexicalError::NaN { line }) => line,
        };
        assert_eq!(line, 1);
    }
}

#[test]
fn string_reports_line_of_closing_quote() {
    let input = "1\n\"a\nb\n\nc\" 2";
    assert_eq!(
        lex_tokens(input),
        vec![
            number(1.0, "1", 1),
            tok(TokenKind::String, "\"a\nb\n\nc\"", 5),
            number(2.0, "2", 5),
            eof(5),
        ]
    )
}

#[test]
fn two_character_operator_is_one_token() {
    assert_eq!(lex_tokens("!="), vec![tok(TokenKind::BangEqual, "!=", 1), eof(1)]);
    assert_eq!(
        lex_tokens("!=="),
        vec![tok(TokenKind::BangEqual, "!=", 1), tok(TokenKind::Equal, "=", 1), eof(1)]
    );
}

#[test]
fn unterminated_string_over_lines_reports_last_line() {
    assert_eq!(
        lex("1 \"abc\ndef"),
        vec![
            Ok(number(1.0, "1", 1)),
            Err(LexicalError::UnterminatedString { line: 2 }),
            Ok(eof(2)),
        ]
    )
}

#[test]
fn unexpected_character_is_recorded_and_scanning_goes_on() {
    assert_eq!(
        lex("@(#"),
        vec![
            Err(LexicalError::UnexpectedCharacter { char: '@', line: 1 }),
            Ok(tok(TokenKind::LeftParen, "(", 1)),
            Err(LexicalError::UnexpectedCharacter { char: '#', line: 1 }),
            Ok(eof(1)),
        ]
    )
}

#[test]
fn empty_input_is_only_end_of_input() {
    assert_eq!(lex(""), vec![Ok(eof(1))]);
}
