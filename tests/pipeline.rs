use rlox::ast::{Expr, Literal};
use rlox::error::{Error, LexicalError, ParseError, ParseErrorInternal, RunTimeError};
use rlox::number::{ArithOp, BoolTerm, CompareOp, NumTerm};
use rlox::token::{Token, TokenKind};
use rlox::{run, Interpreter, Lexer, Parser};

/// The double-precision value of a number term.
fn number(t: &NumTerm) -> f64 {
    match t {
        NumTerm::Literal(text) => text.parse::<f64>().unwrap(),
        NumTerm::Arith(op, a, b) => {
            let (a, b) = (number(a), number(b));
            match op {
                ArithOp::Add => a + b,
                ArithOp::Sub => a - b,
                ArithOp::Mul => a * b,
                ArithOp::Div => a / b,
            }
        }
        NumTerm::Negate(a) => -number(a),
    }
}

/// The truth of a boolean term.
fn truth(t: &BoolTerm) -> bool {
    match t {
        BoolTerm::Literal(b) => *b,
        BoolTerm::Not(a) => !truth(a),
        BoolTerm::Compare(op, a, b) => {
            let (a, b) = (number(a), number(b));
            match op {
                CompareOp::Greater => a > b,
                CompareOp::GreaterEqual => a >= b,
                CompareOp::Less => a < b,
                CompareOp::LessEqual => a <= b,
                CompareOp::Equal => a == b,
            }
        }
    }
}

fn render(v: &Literal) -> String {
    match v {
        Literal::Number(n) => number(n).to_string(),
        Literal::String(s) => s.clone(),
        Literal::Boolean(b) => truth(b).to_string(),
        Literal::Nil => "Nil".to_string(),
    }
}

/// Runs `input` and renders its value.
fn eval(input: &str) -> Result<String, Error> {
    run(input).map(|v| render(&v))
}

fn tok(kind: TokenKind, lexeme: &str, line: usize) -> Token {
    Token::new(kind, lexeme.to_string(), line)
}

fn num(text: &str) -> Box<Expr> {
    Box::new(Expr::NumberLiteral(text.to_string()))
}

fn lit(text: &str) -> Literal {
    Literal::Number(NumTerm::Literal(text.to_string()))
}

fn parse(input: &str) -> Result<Expr, ParseError> {
    let tokens: Vec<Token> = Lexer::lex(input).into_vec().into_iter().flatten().collect();
    let mut parser = Parser::new(tokens);
    parser.parse()
}

fn binary_mismatch(line: usize, left: Literal, right: Literal) -> Result<String, Error> {
    Err(Error::Interpret(RunTimeError::UnexpectedBinaryToken { line, left, right }))
}

#[test]
fn test_parsing_basic_expression() {
    let input = "(1 + 2) * 3";
    let ast = parse(input).unwrap();
    assert_eq!(
        ast,
        Expr::Binary {
            left: Box::new(Expr::Grouping {
                expression: Box::new(Expr::Binary {
                    left: num("1"),
                    operator: tok(TokenKind::Plus, "+", 1),
                    right: num("2"),
                }),
            }),
            operator: tok(TokenKind::Star, "*", 1),
            right: num("3"),
        }
    )
}

#[test]
fn test_parsing_basic_expression_2() {
    let input = "1 + 2 * 3";
    let ast = parse(input).unwrap();
    assert_eq!(
        ast,
        Expr::Binary {
            left: num("1"),
            operator: tok(TokenKind::Plus, "+", 1),
            right: Box::new(Expr::Binary {
                left: num("2"),
                operator: tok(TokenKind::Star, "*", 1),
                right: num("3"),
            }),
        }
    )
}

#[test]
fn same_precedence_chain_is_left_associative() {
    let ast = parse("1 - 2 - 3").unwrap();
    assert_eq!(
        ast,
        Expr::Binary {
            left: Box::new(Expr::Binary {
                left: num("1"),
                operator: tok(TokenKind::Minus, "-", 1),
                right: num("2"),
            }),
            operator: tok(TokenKind::Minus, "-", 1),
            right: num("3"),
        }
    );
    assert_eq!(eval("1 - 2 - 3"), Ok("-4".to_string()));
    assert_eq!(eval("8 / 4 / 2"), Ok("1".to_string()));
}

#[test]
fn precedence_without_parentheses() {
    assert_eq!(eval("1 + 2 * 3"), Ok("7".to_string()));
    assert_eq!(eval("(1 + 2) * 3"), Ok("9".to_string()));
    assert_eq!(eval("-2 * 3 < 1 + 1"), Ok("true".to_string()));
}

#[test]
fn equality_is_reflexive_and_type_aware() {
    assert_eq!(eval("1 == 1"), Ok("true".to_string()));
    assert_eq!(eval("\"a\" == \"a\""), Ok("true".to_string()));
    assert_eq!(eval("nil == nil"), Ok("true".to_string()));
    assert_eq!(eval("nil != 5"), Ok("true".to_string()));
    assert_eq!(eval("5 != nil"), Ok("true".to_string()));
    assert_eq!(eval("nil == \"a\""), Ok("false".to_string()));
    assert_eq!(eval("nil != nil"), Ok("false".to_string()));
    assert_eq!(eval("\"a\" != \"b\""), Ok("true".to_string()));
    assert_eq!(eval("1 != 2"), Ok("true".to_string()));
    assert_eq!(eval("1 != 1"), Ok("false".to_string()));
}

#[test]
fn mismatched_types_fail_at_runtime() {
    assert_eq!(eval("1 + \"a\""), binary_mismatch(1, lit("1"), Literal::String("\"a\"".to_string())));
    assert!(parse("1 == \"a\"").is_ok());
    assert_eq!(eval("1 == \"a\""), binary_mismatch(1, lit("1"), Literal::String("\"a\"".to_string())));
    assert_eq!(
        eval("true == true"),
        binary_mismatch(1, Literal::Boolean(BoolTerm::Literal(true)), Literal::Boolean(BoolTerm::Literal(true)))
    );
    assert_eq!(
        eval("1 < 2 == 3 < 4"),
        binary_mismatch(
            1,
            Literal::Boolean(BoolTerm::Compare(CompareOp::Less, Box::new(NumTerm::Literal("1".to_string())), Box::new(NumTerm::Literal("2".to_string())))),
            Literal::Boolean(BoolTerm::Compare(CompareOp::Less, Box::new(NumTerm::Literal("3".to_string())), Box::new(NumTerm::Literal("4".to_string())))),
        )
    );
    assert_eq!(eval("\"a\" - \"b\""), binary_mismatch(1, Literal::String("\"a\"".to_string()), Literal::String("\"b\"".to_string())));
    assert_eq!(eval("nil < nil"), binary_mismatch(1, Literal::Nil, Literal::Nil));
    assert_eq!(eval("nil + 1"), binary_mismatch(1, Literal::Nil, lit("1")));
}

#[test]
fn unary_operators() {
    assert_eq!(eval("!nil"), Ok("true".to_string()));
    assert_eq!(eval("!true"), Ok("false".to_string()));
    assert_eq!(eval("-5"), Ok("-5".to_string()));
    assert_eq!(eval("!!false"), Ok("false".to_string()));
    assert_eq!(eval("--5"), Ok("5".to_string()));
    assert_eq!(eval("!(1 < 2)"), Ok("false".to_string()));
    assert_eq!(
        eval("-\"a\""),
        Err(Error::Interpret(RunTimeError::UnexpectedUnaryToken {
            line: 1,
            literal: Literal::String("\"a\"".to_string()),
        }))
    );
    assert_eq!(
        eval("\n!5"),
        Err(Error::Interpret(RunTimeError::UnexpectedUnaryToken { line: 2, literal: lit("5") }))
    );
}

#[test]
fn unterminated_string_stops_before_parsing() {
    assert_eq!(eval("\"abc"), Err(Error::Lex(LexicalError::UnterminatedString { line: 1 })));
    assert_eq!(eval("(1 @ 2"), Err(Error::Lex(LexicalError::UnexpectedCharacter { char: '@', line: 1 })));
}

#[test]
fn missing_closing_parenthesis_is_a_parse_error() {
    assert_eq!(eval("(1 + 2"), Err(Error::Parse(ParseError::ExpectedClosingParenAfterExpr { line: 1 })));
    assert_eq!(eval("(1 + 2\n3)"), Err(Error::Parse(ParseError::ExpectedClosingParenAfterExpr { line: 2 })));
}

#[test]
fn parse_errors_of_each_kind() {
    let mut empty = Parser::new(vec![]);
    assert_eq!(empty.parse(), Err(ParseError::ExpectExpression));
    let mut open = Parser::new(vec![tok(TokenKind::LeftParen, "(", 1), tok(TokenKind::Number, "1", 1)]);
    assert_eq!(open.parse(), Err(ParseError::UnexpectedEof));
    assert_eq!(eval("1 +"), Err(Error::Parse(ParseError::Internal(ParseErrorInternal::UnhandledToken { line: 1 }))));
    assert_eq!(eval(""), Err(Error::Parse(ParseError::Internal(ParseErrorInternal::UnhandledToken { line: 1 }))));
    assert_eq!(eval("x"), Err(Error::Parse(ParseError::Internal(ParseErrorInternal::UnhandledToken { line: 1 }))));
}

#[test]
fn parse_moves_past_the_expression() {
    let tokens: Vec<Token> = Lexer::lex("1 2").into_vec().into_iter().flatten().collect();
    let mut parser = Parser::new(tokens);
    assert_eq!(parser.parse(), Ok(Expr::NumberLiteral("1".to_string())));
    assert_eq!(parser.current, 1);
    assert_eq!(parser.parse(), Ok(Expr::NumberLiteral("2".to_string())));
    assert_eq!(parser.current, 2);
}

#[test]
fn arithmetic_and_comparisons() {
    assert_eq!(eval("7 - 10"), Ok("-3".to_string()));
    assert_eq!(eval("2.5 * 4"), Ok("10".to_string()));
    assert_eq!(eval("1 / 4"), Ok("0.25".to_string()));
    assert_eq!(eval("1 / 0"), Ok("inf".to_string()));
    assert_eq!(eval("0 / 0"), Ok("NaN".to_string()));
    assert_eq!(eval("0 / 0 == 0 / 0"), Ok("false".to_string()));
    assert_eq!(eval("0.1 + 0.2"), Ok("0.30000000000000004".to_string()));
    assert_eq!(eval("1 < 2"), Ok("true".to_string()));
    assert_eq!(eval("2 <= 2"), Ok("true".to_string()));
    assert_eq!(eval("1 > 2"), Ok("false".to_string()));
    assert_eq!(eval("3 >= 4"), Ok("false".to_string()));
}

#[test]
fn values_are_terms_of_their_operands() {
    assert_eq!(
        run("1 + 2 * 3"),
        Ok(Literal::Number(NumTerm::Arith(
            ArithOp::Add,
            Box::new(NumTerm::Literal("1".to_string())),
            Box::new(NumTerm::Arith(
                ArithOp::Mul,
                Box::new(NumTerm::Literal("2".to_string())),
                Box::new(NumTerm::Literal("3".to_string())),
            )),
        )))
    );
    assert_eq!(
        run("-1 != 2"),
        Ok(Literal::Boolean(BoolTerm::Not(Box::new(BoolTerm::Compare(
            CompareOp::Equal,
            Box::new(NumTerm::Negate(Box::new(NumTerm::Literal("1".to_string())))),
            Box::new(NumTerm::Literal("2".to_string())),
        )))))
    );
}

#[test]
fn values_render_canonically() {
    assert_eq!(eval("\"hi\""), Ok("\"hi\"".to_string()));
    assert_eq!(eval("nil"), Ok("Nil".to_string()));
    assert_eq!(eval("false"), Ok("false".to_string()));
    assert_eq!(eval("(((42)))"), Ok("42".to_string()));
    assert_eq!(eval("1 2"), Ok("1".to_string()));
}

#[test]
fn interpreter_on_a_tree() {
    let tree = Expr::Unary { operator: tok(TokenKind::Bang, "!", 3), right: Box::new(Expr::BooleanLiteral(false)) };
    assert_eq!(
        Interpreter::interpret(Box::new(tree)),
        Ok(Literal::Boolean(BoolTerm::Not(Box::new(BoolTerm::Literal(false)))))
    );
    let bad = Expr::Binary {
        left: Box::new(Expr::NoneLiteral),
        operator: tok(TokenKind::Plus, "+", 4),
        right: Box::new(Expr::StringLiteral("\"x\"".to_string())),
    };
    assert_eq!(
        Interpreter::interpret(Box::new(bad)),
        Err(RunTimeError::UnexpectedBinaryToken { line: 4, left: Literal::Nil, right: Literal::String("\"x\"".to_string()) })
    );
}
