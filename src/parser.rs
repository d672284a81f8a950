use vstd::prelude::*;

use crate::ast::{Expr, ExprModel};
use crate::error::{ParseError, ParseErrorInternal};
use crate::token::{Token, TokenKind, TokenModel};

verus! {

/// The binary precedence levels, from the loosest binding to the tightest.
#[derive(Debug, Clone, Copy, PartialEq, Eq, Structural)]
pub enum Level {
    Equality,
    Comparison,
    Term,
    Factor,
}

/// Whether `k` is an operator of `level`.
pub open spec fn level_op(level: Level, k: TokenKind) -> bool {
    match level {
        Level::Equality => k is BangEqual || k is EqualEqual,
        Level::Comparison => k is Greater || k is GreaterEqual || k is Less || k is LessEqual,
        Level::Term => k is Minus || k is Plus,
        Level::Factor => k is Star || k is Slash,
    }
}

/// A prefix operator.
pub open spec fn unary_op(k: TokenKind) -> bool {
    k is Bang || k is Minus
}

/// Orders the parsing functions for termination: a function may call one
/// of lower rank at the same position.
pub open spec fn rank(level: Level) -> int {
    match level {
        Level::Equality => 15,
        Level::Comparison => 12,
        Level::Term => 9,
        Level::Factor => 6,
    }
}

/// A tree and the position after the tokens it was parsed from, or the
/// first error.
pub type ParseOutcome = Result<(ExprModel, int), ParseError>;

/// An expression parsed from position `p` of `t`.
pub open spec fn expression(t: Seq<TokenModel>, p: int) -> ParseOutcome
    decreases t.len() - p, 18int,
{
    binary(t, p, Level::Equality)
}

/// A left-leaning chain of operands joined by the operators of `level`.
pub open spec fn binary(t: Seq<TokenModel>, p: int, level: Level) -> ParseOutcome
    decreases t.len() - p, rank(level),
{
    match operand(t, p, level) {
        Err(e) => Err(e),
        Ok((left, q)) => if p < q <= t.len() {
            binary_rest(t, q, level, left)
        } else {
            Ok((left, q))
        },
    }
}

/// Folds further `level` operators and operands into `left`, from `q` on.
pub open spec fn binary_rest(t: Seq<TokenModel>, q: int, level: Level, left: ExprModel) -> ParseOutcome
    decreases t.len() - q, 0int,
{
    if 0 <= q < t.len() && level_op(level, t[q].kind) {
        match operand(t, q + 1, level) {
            Err(e) => Err(e),
            Ok((right, r)) => {
                let joined = ExprModel::Binary {
                    left: Box::new(left),
                    operator: t[q],
                    right: Box::new(right),
                };
                if q < r <= t.len() {
                    binary_rest(t, r, level, joined)
                } else {
                    Ok((joined, r))
                }
            },
        }
    } else {
        Ok((left, q))
    }
}

/// An operand of a `level` operator: an expression of the next tighter level.
pub open spec fn operand(t: Seq<TokenModel>, p: int, level: Level) -> ParseOutcome
    decreases t.len() - p, rank(level) - 1,
{
    match level {
        Level::Equality => binary(t, p, Level::Comparison),
        Level::Comparison => binary(t, p, Level::Term),
        Level::Term => binary(t, p, Level::Factor),
        Level::Factor => unary(t, p),
    }
}

/// Prefix operators, then a primary expression.
pub open spec fn unary(t: Seq<TokenModel>, p: int) -> ParseOutcome
    decreases t.len() - p, 2int,
{
    if 0 <= p < t.len() && unary_op(t[p].kind) {
        match unary(t, p + 1) {
            Err(e) => Err(e),
            Ok((right, q)) => Ok((ExprModel::Unary { operator: t[p], right: Box::new(right) }, q)),
        }
    } else {
        primary(t, p)
    }
}

/// A literal or a parenthesized expression.
pub open spec fn primary(t: Seq<TokenModel>, p: int) -> ParseOutcome
    decreases t.len() - p, 1int,
{
    if p < 0 || p >= t.len() {
        Err(ParseError::ExpectExpression)
    } else {
        let tok = t[p];
        match tok.kind {
            TokenKind::True => Ok((ExprModel::BooleanLiteral(true), p + 1)),
            TokenKind::False => Ok((ExprModel::BooleanLiteral(false), p + 1)),
            TokenKind::Nil => Ok((ExprModel::NoneLiteral, p + 1)),
            TokenKind::Number => Ok((ExprModel::NumberLiteral(tok.lexeme), p + 1)),
            TokenKind::String => Ok((ExprModel::StringLiteral(tok.lexeme), p + 1)),
            TokenKind::LeftParen => match expression(t, p + 1) {
                Err(e) => Err(e),
                Ok((inner, q)) => if 0 <= q < t.len() {
                    if t[q].kind is RightParen {
                        Ok((ExprModel::Grouping { expression: Box::new(inner) }, q + 1))
                    } else {
                        Err(ParseError::ExpectedClosingParenAfterExpr { line: t[q].line as usize })
                    }
                } else {
                    Err(ParseError::UnexpectedEof)
                },
            },
            _ => Err(ParseError::Internal(ParseErrorInternal::UnhandledToken { line: tok.line as usize })),
        }
    }
}

/// How tightly a level binds: the higher, the tighter.
pub open spec fn tier(level: Level) -> int {
    match level {
        Level::Equality => 0,
        Level::Comparison => 1,
        Level::Term => 2,
        Level::Factor => 3,
    }
}

/// The level that binds next tighter than `level`.
pub open spec fn tighter(level: Level) -> Level {
    match level {
        Level::Equality => Level::Comparison,
        Level::Comparison => Level::Term,
        _ => Level::Factor,
    }
}

/// The level that binds next looser than `level`.
pub open spec fn looser(level: Level) -> Level {
    match level {
        Level::Factor => Level::Term,
        Level::Term => Level::Comparison,
        _ => Level::Equality,
    }
}

/// A token that is an operator of some level between `lo` and `hi`
/// (inclusive, by tier).
pub open spec fn op_between(k: TokenKind, lo: int, hi: int) -> bool {
    exists|l: Level| lo <= tier(l) <= hi && #[trigger] level_op(l, k)
}

/// A token that forms a literal expression on its own.
pub open spec fn is_literal(k: TokenKind) -> bool {
    k is True || k is False || k is Nil || k is Number || k is String
}

/// The literal expression that a literal token forms.
pub open spec fn literal_model(t: TokenModel) -> ExprModel {
    match t.kind {
        TokenKind::True => ExprModel::BooleanLiteral(true),
        TokenKind::False => ExprModel::BooleanLiteral(false),
        TokenKind::Number => ExprModel::NumberLiteral(t.lexeme),
        TokenKind::String => ExprModel::StringLiteral(t.lexeme),
        _ => ExprModel::NoneLiteral,
    }
}

proof fn lemma_level_ops_disjoint(k: TokenKind, a: Level, b: Level)
    requires
        level_op(a, k),
        level_op(b, k),
    ensures
        a == b,
{
}

/// A literal followed by no operator of a level tighter than `level` is a
/// whole operand of `level`.
proof fn lemma_literal_operand(t: Seq<TokenModel>, p: int, level: Level)
    requires
        0 <= p,
        p + 1 < t.len(),
        is_literal(t[p].kind),
        !op_between(t[p + 1].kind, tier(level) + 1, 3),
    ensures
        operand(t, p, level) == Ok::<(ExprModel, int), ParseError>((literal_model(t[p]), p + 1)),
    decreases 3 - tier(level),
{
    let lit = literal_model(t[p]);
    if level is Factor {
        assert(unary(t, p) == primary(t, p));
        assert(primary(t, p) == Ok::<(ExprModel, int), ParseError>((lit, p + 1)));
    } else {
        let next = tighter(level);
        lemma_literal_operand(t, p, next);
        if level_op(next, t[p + 1].kind) {
            assert(op_between(t[p + 1].kind, tier(level) + 1, 3));
        }
        assert(binary_rest(t, p + 1, next, lit) == Ok::<(ExprModel, int), ParseError>((lit, p + 1)));
        assert(binary(t, p, next) == Ok::<(ExprModel, int), ParseError>((lit, p + 1)));
    }
}

/// A tree parsed at `level` and followed by no operator of a looser level,
/// down to `target`, is what the looser levels parse too.
proof fn lemma_loosen(t: Seq<TokenModel>, p: int, level: Level, target: Level, e: ExprModel, q: int)
    requires
        binary(t, p, level) == Ok::<(ExprModel, int), ParseError>((e, q)),
        p < q < t.len(),
        tier(target) <= tier(level),
        !op_between(t[q].kind, tier(target), tier(level) - 1),
    ensures
        binary(t, p, target) == Ok::<(ExprModel, int), ParseError>((e, q)),
    decreases tier(level) - tier(target),
{
    if tier(target) < tier(level) {
        let up = looser(level);
        assert(operand(t, p, up) == binary(t, p, level));
        if level_op(up, t[q].kind) {
            assert(op_between(t[q].kind, tier(target), tier(level) - 1));
        }
        lemma_loosen(t, p, up, target, e, q);
    }
}

/// Operators of one level associate to the left: three literals joined by
/// two operators of the same level parse as `(a o b) o c`.
pub proof fn lemma_left_associative(t: Seq<TokenModel>, level: Level)
    requires
        t.len() > 5,
        is_literal(t[0].kind),
        is_literal(t[2].kind),
        is_literal(t[4].kind),
        level_op(level, t[1].kind),
        level_op(level, t[3].kind),
        !op_between(t[5].kind, 0, 3),
    ensures
        expression(t, 0) == Ok::<(ExprModel, int), ParseError>(
            (
                ExprModel::Binary {
                    left: Box::new(
                        ExprModel::Binary {
                            left: Box::new(literal_model(t[0])),
                            operator: t[1],
                            right: Box::new(literal_model(t[2])),
                        },
                    ),
                    operator: t[3],
                    right: Box::new(literal_model(t[4])),
                },
                5,
            ),
        ),
{
    assert forall|l: Level| tier(level) + 1 <= tier(l) <= 3 implies !#[trigger] level_op(
        l,
        t[1].kind,
    ) by {
        if level_op(l, t[1].kind) {
            lemma_level_ops_disjoint(t[1].kind, l, level);
        }
    }
    assert forall|l: Level| tier(level) + 1 <= tier(l) <= 3 implies !#[trigger] level_op(
        l,
        t[3].kind,
    ) by {
        if level_op(l, t[3].kind) {
            lemma_level_ops_disjoint(t[3].kind, l, level);
        }
    }
    lemma_literal_operand(t, 0, level);
    lemma_literal_operand(t, 2, level);
    lemma_literal_operand(t, 4, level);
    let ab = ExprModel::Binary {
        left: Box::new(literal_model(t[0])),
        operator: t[1],
        right: Box::new(literal_model(t[2])),
    };
    let abc = ExprModel::Binary { left: Box::new(ab), operator: t[3], right: Box::new(literal_model(t[4])) };
    assert(!level_op(level, t[5].kind)) by {
        if level_op(level, t[5].kind) {
            assert(op_between(t[5].kind, 0, 3));
        }
    }
    assert(binary_rest(t, 5, level, abc) == Ok::<(ExprModel, int), ParseError>((abc, 5)));
    assert(binary_rest(t, 3, level, ab) == binary_rest(t, 5, level, abc));
    assert(binary(t, 0, level) == Ok::<(ExprModel, int), ParseError>((abc, 5)));
    lemma_loosen(t, 0, level, Level::Equality, abc, 5);
}

/// Precedence decides the grouping: of two operators between three
/// literals, the one of the tighter level takes its neighbours first.
pub proof fn lemma_precedence(t: Seq<TokenModel>, first: Level, second: Level)
    requires
        t.len() > 5,
        is_literal(t[0].kind),
        is_literal(t[2].kind),
        is_literal(t[4].kind),
        level_op(first, t[1].kind),
        level_op(second, t[3].kind),
        tier(first) != tier(second),
        !op_between(t[5].kind, 0, 3),
    ensures
        tier(first) < tier(second) ==> expression(t, 0) == Ok::<(ExprModel, int), ParseError>(
            (
                ExprModel::Binary {
                    left: Box::new(literal_model(t[0])),
                    operator: t[1],
                    right: Box::new(
                        ExprModel::Binary {
                            left: Box::new(literal_model(t[2])),
                            operator: t[3],
                            right: Box::new(literal_model(t[4])),
                        },
                    ),
                },
                5,
            ),
        ),
        tier(first) > tier(second) ==> expression(t, 0) == Ok::<(ExprModel, int), ParseError>(
            (
                ExprModel::Binary {
                    left: Box::new(
                        ExprModel::Binary {
                            left: Box::new(literal_model(t[0])),
                            operator: t[1],
                            right: Box::new(literal_model(t[2])),
                        },
                    ),
                    operator: t[3],
                    right: Box::new(literal_model(t[4])),
                },
                5,
            ),
        ),
{
    assert(!op_between(t[5].kind, 0, 3));
    assert forall|l: Level| #[trigger] level_op(l, t[1].kind) implies l == first by {
        lemma_level_ops_disjoint(t[1].kind, l, first);
    }
    assert forall|l: Level| #[trigger] level_op(l, t[3].kind) implies l == second by {
        lemma_level_ops_disjoint(t[3].kind, l, second);
    }
    let a = literal_model(t[0]);
    let b = literal_model(t[2]);
    let c = literal_model(t[4]);
    assert(!level_op(first, t[5].kind) && !level_op(second, t[5].kind)) by {
        if level_op(first, t[5].kind) {
            assert(op_between(t[5].kind, 0, 3));
        }
        if level_op(second, t[5].kind) {
            assert(op_between(t[5].kind, 0, 3));
        }
    }
    if tier(first) < tier(second) {
        // b o2 c is one operand of the first operator.
        lemma_literal_operand(t, 0, first);
        lemma_literal_operand(t, 2, second);
        lemma_literal_operand(t, 4, second);
        let bc = ExprModel::Binary { left: Box::new(b), operator: t[3], right: Box::new(c) };
        assert(binary_rest(t, 5, second, bc) == Ok::<(ExprModel, int), ParseError>((bc, 5)));
        assert(binary(t, 2, second) == Ok::<(ExprModel, int), ParseError>((bc, 5)));
        let inner = tighter(first);
        lemma_loosen(t, 2, second, inner, bc, 5);
        assert(operand(t, 2, first) == binary(t, 2, inner));
        let abc = ExprModel::Binary { left: Box::new(a), operator: t[1], right: Box::new(bc) };
        assert(binary_rest(t, 5, first, abc) == Ok::<(ExprModel, int), ParseError>((abc, 5)));
        assert(binary(t, 0, first) == Ok::<(ExprModel, int), ParseError>((abc, 5)));
        lemma_loosen(t, 0, first, Level::Equality, abc, 5);
    } else {
        // a o1 b is the left operand of the second operator.
        lemma_literal_operand(t, 0, first);
        lemma_literal_operand(t, 2, first);
        lemma_literal_operand(t, 4, second);
        let ab = ExprModel::Binary { left: Box::new(a), operator: t[1], right: Box::new(b) };
        assert(binary_rest(t, 3, first, ab) == Ok::<(ExprModel, int), ParseError>((ab, 3)));
        assert(binary(t, 0, first) == Ok::<(ExprModel, int), ParseError>((ab, 3)));
        let inner = tighter(second);
        lemma_loosen(t, 0, first, inner, ab, 3);
        assert(operand(t, 0, second) == binary(t, 0, inner));
        let abc = ExprModel::Binary { left: Box::new(ab), operator: t[3], right: Box::new(c) };
        assert(binary_rest(t, 5, second, abc) == Ok::<(ExprModel, int), ParseError>((abc, 5)));
        assert(binary(t, 0, second) == Ok::<(ExprModel, int), ParseError>((abc, 5)));
        lemma_loosen(t, 0, second, Level::Equality, abc, 5);
    }
}

/// The models of a token sequence.
pub open spec fn tokens_model(t: Seq<Token>) -> Seq<TokenModel> {
    t.map_values(|tok: Token| tok@)
}

/// The model of an executable parse result.
pub open spec fn outcome(r: Result<(Expr, usize), ParseError>) -> ParseOutcome {
    match r {
        Ok((e, q)) => Ok((e@, q as int)),
        Err(e) => Err(e),
    }
}

/// A successful parse from `p` consumed at least one token.
pub open spec fn advanced(r: Result<(Expr, usize), ParseError>, p: usize, len: nat) -> bool {
    r matches Ok((_, q)) ==> p < q <= len
}

fn is_level_op(level: Level, k: &TokenKind) -> (r: bool)
    ensures
        r == level_op(level, *k),
{
    match level {
        Level::Equality => matches!(k, TokenKind::BangEqual | TokenKind::EqualEqual),
        Level::Comparison => matches!(
            k,
            TokenKind::Greater | TokenKind::GreaterEqual | TokenKind::Less | TokenKind::LessEqual
        ),
        Level::Term => matches!(k, TokenKind::Minus | TokenKind::Plus),
        Level::Factor => matches!(k, TokenKind::Star | TokenKind::Slash),
    }
}

/// A recursive-descent parser over a token sequence.
pub struct Parser {
    pub tokens: Vec<Token>,
    pub current: usize,
}

impl Parser {
    pub fn new(tokens: Vec<Token>) -> (r: Self)
        ensures
            r.tokens == tokens,
            r.current == 0,
    {
        Parser { tokens, current: 0 }
    }

    /// Parses one expression from the current position, and moves past it.
    /// The first error aborts the parse.
    pub fn parse(&mut self) -> (r: Result<Expr, ParseError>)
        ensures
            final(self).tokens == old(self).tokens,
            match expression(tokens_model(old(self).tokens@), old(self).current as int) {
                Ok((e, q)) => r matches Ok(x) && x@ == e && final(self).current == q,
                Err(e) => r == Err::<Expr, ParseError>(e) && final(self).current
                    == old(self).current,
            },
    {
        match self.expression(self.current) {
            Ok((e, q)) => {
                self.current = q;
                Ok(e)
            },
            Err(e) => Err(e),
        }
    }

    fn expression(&self, p: usize) -> (r: Result<(Expr, usize), ParseError>)
        ensures
            outcome(r) == expression(tokens_model(self.tokens@), p as int),
            advanced(r, p, self.tokens.len() as nat),
        decreases self.tokens.len() - p, 18int,
    {
        self.equality(p)
    }

    fn equality(&self, p: usize) -> (r: Result<(Expr, usize), ParseError>)
        ensures
            outcome(r) == binary(tokens_model(self.tokens@), p as int, Level::Equality),
            advanced(r, p, self.tokens.len() as nat),
        decreases self.tokens.len() - p, 16int,
    {
        self.binary(p, Level::Equality)
    }

    fn comparison(&self, p: usize) -> (r: Result<(Expr, usize), ParseError>)
        ensures
            outcome(r) == binary(tokens_model(self.tokens@), p as int, Level::Comparison),
            advanced(r, p, self.tokens.len() as nat),
        decreases self.tokens.len() - p, 13int,
    {
        self.binary(p, Level::Comparison)
    }

    fn term(&self, p: usize) -> (r: Result<(Expr, usize), ParseError>)
        ensures
            outcome(r) == binary(tokens_model(self.tokens@), p as int, Level::Term),
            advanced(r, p, self.tokens.len() as nat),
        decreases self.tokens.len() - p, 10int,
    {
        self.binary(p, Level::Term)
    }

    fn factor(&self, p: usize) -> (r: Result<(Expr, usize), ParseError>)
        ensures
            outcome(r) == binary(tokens_model(self.tokens@), p as int, Level::Factor),
            advanced(r, p, self.tokens.len() as nat),
        decreases self.tokens.len() - p, 7int,
    {
        self.binary(p, Level::Factor)
    }

    /// Parses an operand of `level`, then folds each following operator of
    /// `level` and its right operand into a left-leaning tree.
    fn binary(&self, p: usize, level: Level) -> (r: Result<(Expr, usize), ParseError>)
        ensures
            outcome(r) == binary(tokens_model(self.tokens@), p as int, level),
            advanced(r, p, self.tokens.len() as nat),
        decreases self.tokens.len() - p, rank(level),
    {
        match self.operand(p, level) {
            Err(e) => Err(e),
            Ok((left, q0)) => {
                let mut expr = left;
                let mut q = q0;
                while q < self.tokens.len() && is_level_op(level, &self.tokens[q].kind)
                    invariant
                        p < q <= self.tokens.len(),
                        binary(tokens_model(self.tokens@), p as int, level) == binary_rest(
                            tokens_model(self.tokens@),
                            q as int,
                            level,
                            expr@,
                        ),
                    decreases self.tokens.len() - q,
                {
                    let operator = self.tokens[q].duplicate();
                    match self.operand(q + 1, level) {
                        Err(e) => {
                            return Err(e);
                        },
                        Ok((right, next)) => {
                            expr = Expr::Binary {
                                left: Box::new(expr),
                                operator,
                                right: Box::new(right),
                            };
                            q = next;
                        },
                    }
                }
                Ok((expr, q))
            },
        }
    }

    fn operand(&self, p: usize, level: Level) -> (r: Result<(Expr, usize), ParseError>)
        ensures
            outcome(r) == operand(tokens_model(self.tokens@), p as int, level),
            advanced(r, p, self.tokens.len() as nat),
        decreases self.tokens.len() - p, rank(level) - 1,
    {
        match level {
            Level::Equality => self.comparison(p),
            Level::Comparison => self.term(p),
            Level::Term => self.factor(p),
            Level::Factor => self.unary(p),
        }
    }

    fn unary(&self, p: usize) -> (r: Result<(Expr, usize), ParseError>)
        ensures
            outcome(r) == unary(tokens_model(self.tokens@), p as int),
            advanced(r, p, self.tokens.len() as nat),
        decreases self.tokens.len() - p, 2int,
    {
        if p < self.tokens.len() && matches!(self.tokens[p].kind, TokenKind::Bang | TokenKind::Minus) {
            let operator = self.tokens[p].duplicate();
            match self.unary(p + 1) {
                Err(e) => Err(e),
                Ok((right, q)) => Ok((Expr::Unary { operator, right: Box::new(right) }, q)),
            }
        } else {
            self.primary(p)
        }
    }

    fn primary(&self, p: usize) -> (r: Result<(Expr, usize), ParseError>)
        ensures
            outcome(r) == primary(tokens_model(self.tokens@), p as int),
            advanced(r, p, self.tokens.len() as nat),
        decreases self.tokens.len() - p, 1int,
    {
        if p >= self.tokens.len() {
            return Err(ParseError::ExpectExpression);
        }
        let tok = &self.tokens[p];
        match tok.kind {
            TokenKind::True => Ok((Expr::BooleanLiteral(true), p + 1)),
            TokenKind::False => Ok((Expr::BooleanLiteral(false), p + 1)),
            TokenKind::Nil => Ok((Expr::NoneLiteral, p + 1)),
            TokenKind::Number => Ok((Expr::NumberLiteral(tok.lexeme.clone()), p + 1)),
            TokenKind::String => Ok((Expr::StringLiteral(tok.lexeme.clone()), p + 1)),
            TokenKind::LeftParen => match self.expression(p + 1) {
                Err(e) => Err(e),
                Ok((inner, q)) => {
                    if q < self.tokens.len() {
                        if matches!(self.tokens[q].kind, TokenKind::RightParen) {
                            Ok((Expr::Grouping { expression: Box::new(inner) }, q + 1))
                        } else {
                            Err(ParseError::ExpectedClosingParenAfterExpr { line: self.tokens[q].line })
                        }
                    } else {
                        Err(ParseError::UnexpectedEof)
                    }
                },
            },
            _ => Err(ParseError::Internal(ParseErrorInternal::UnhandledToken { line: tok.line })),
        }
    }
}

} // verus!
