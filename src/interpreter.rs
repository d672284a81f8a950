use vstd::prelude::*;

use crate::ast::{Expr, ExprModel, Literal, Value};
use crate::error::RunTimeError;
use crate::number::{ArithOp, BoolModel, BoolTerm, CompareOp, NumModel, NumTerm};
use crate::token::{Token, TokenKind, TokenModel};

verus! {

/// The model of a runtime error: the ill-typed operation's line and the
/// values it was applied to.
pub enum Fault {
    Unary { line: nat, operand: Value },
    Binary { line: nat, left: Value, right: Value },
}

/// The arithmetic operator that `k` denotes, if any.
pub open spec fn arith_op(k: TokenKind) -> Option<ArithOp> {
    match k {
        TokenKind::Plus => Some(ArithOp::Add),
        TokenKind::Minus => Some(ArithOp::Sub),
        TokenKind::Star => Some(ArithOp::Mul),
        TokenKind::Slash => Some(ArithOp::Div),
        _ => None,
    }
}

/// The numeric comparison that `k` denotes, if any (`!=` is the negation
/// of `==`).
pub open spec fn compare_op(k: TokenKind) -> Option<CompareOp> {
    match k {
        TokenKind::Greater => Some(CompareOp::Greater),
        TokenKind::GreaterEqual => Some(CompareOp::GreaterEqual),
        TokenKind::Less => Some(CompareOp::Less),
        TokenKind::LessEqual => Some(CompareOp::LessEqual),
        TokenKind::EqualEqual => Some(CompareOp::Equal),
        _ => None,
    }
}

/// A binary operator applied to two values: arithmetic and ordering on two
/// numbers; equality on two numbers, two strings, or where the none value
/// is on either side; a fault otherwise.
pub open spec fn apply_binary(op: TokenModel, l: Value, r: Value) -> Result<Value, Fault> {
    let k = op.kind;
    let mismatch = Err(Fault::Binary { line: op.line, left: l, right: r });
    match (l, r) {
        (Value::Number(a), Value::Number(b)) => match arith_op(k) {
            Some(o) => Ok(Value::Number(NumModel::Arith(o, Box::new(a), Box::new(b)))),
            None => match compare_op(k) {
                Some(c) => Ok(Value::Boolean(BoolModel::Compare(c, Box::new(a), Box::new(b)))),
                None => if k is BangEqual {
                    Ok(
                        Value::Boolean(
                            BoolModel::Not(
                                Box::new(
                                    BoolModel::Compare(CompareOp::Equal, Box::new(a), Box::new(b)),
                                ),
                            ),
                        ),
                    )
                } else {
                    mismatch
                },
            },
        },
        (Value::Str(a), Value::Str(b)) => if k is EqualEqual {
            Ok(Value::Boolean(BoolModel::Literal(a == b)))
        } else if k is BangEqual {
            Ok(Value::Boolean(BoolModel::Literal(a != b)))
        } else {
            mismatch
        },
        (Value::Nil, Value::Nil) => if k is EqualEqual {
            Ok(Value::Boolean(BoolModel::Literal(true)))
        } else if k is BangEqual {
            Ok(Value::Boolean(BoolModel::Literal(false)))
        } else {
            mismatch
        },
        (Value::Nil, _) | (_, Value::Nil) => if k is EqualEqual {
            Ok(Value::Boolean(BoolModel::Literal(false)))
        } else if k is BangEqual {
            Ok(Value::Boolean(BoolModel::Literal(true)))
        } else {
            mismatch
        },
        _ => mismatch,
    }
}

/// A prefix operator applied to a value: `-` negates a number, `!` inverts
/// a boolean and gives true for the none value; a fault otherwise.
pub open spec fn apply_unary(op: TokenModel, v: Value) -> Result<Value, Fault> {
    match (op.kind, v) {
        (TokenKind::Minus, Value::Number(n)) => Ok(Value::Number(NumModel::Negate(Box::new(n)))),
        (TokenKind::Bang, Value::Boolean(b)) => Ok(Value::Boolean(BoolModel::Not(Box::new(b)))),
        (TokenKind::Bang, Value::Nil) => Ok(Value::Boolean(BoolModel::Literal(true))),
        _ => Err(Fault::Unary { line: op.line, operand: v }),
    }
}

/// The value of an expression: operands left to right, each fully, then
/// the operator; the first fault aborts.
pub open spec fn eval(e: ExprModel) -> Result<Value, Fault>
    decreases e,
{
    match e {
        ExprModel::NumberLiteral(n) => Ok(Value::Number(NumModel::Literal(n))),
        ExprModel::BooleanLiteral(b) => Ok(Value::Boolean(BoolModel::Literal(b))),
        ExprModel::StringLiteral(s) => Ok(Value::Str(s)),
        ExprModel::NoneLiteral => Ok(Value::Nil),
        ExprModel::Grouping { expression } => eval(*expression),
        ExprModel::Binary { left, operator, right } => match eval(*left) {
            Err(f) => Err(f),
            Ok(l) => match eval(*right) {
                Err(f) => Err(f),
                Ok(r) => apply_binary(operator, l, r),
            },
        },
        ExprModel::Unary { operator, right } => match eval(*right) {
            Err(f) => Err(f),
            Ok(v) => apply_unary(operator, v),
        },
    }
}

/// Whether two values have the same type.
pub open spec fn same_type(a: Value, b: Value) -> bool {
    match (a, b) {
        (Value::Number(_), Value::Number(_)) => true,
        (Value::Str(_), Value::Str(_)) => true,
        (Value::Boolean(_), Value::Boolean(_)) => true,
        (Value::Nil, Value::Nil) => true,
        _ => false,
    }
}

/// Operands of two different types, neither of them nil, fail every binary
/// operator, equality included, when the operator is evaluated: the fault
/// names the operator's line and both values.
pub proof fn lemma_mismatched_types(
    left: ExprModel,
    operator: TokenModel,
    right: ExprModel,
    l: Value,
    r: Value,
)
    requires
        eval(left) == Ok::<Value, Fault>(l),
        eval(right) == Ok::<Value, Fault>(r),
        !same_type(l, r),
        !(l is Nil),
        !(r is Nil),
    ensures
        eval(ExprModel::Binary { left: Box::new(left), operator, right: Box::new(right) }) == Err::<
            Value,
            Fault,
        >(Fault::Binary { line: operator.line, left: l, right: r }),
{
}

/// Equality is reflexive on strings and on the none value, and the none
/// value is unequal to every other value, on either side.
pub proof fn lemma_equality(op: TokenModel, v: Value, w: Value)
    requires
        op.kind is EqualEqual || op.kind is BangEqual,
    ensures
        (v is Str || v is Nil) ==> apply_binary(op, v, v) == Ok::<Value, Fault>(
            Value::Boolean(BoolModel::Literal(op.kind is EqualEqual)),
        ),
        (v is Nil && !(w is Nil)) ==> apply_binary(op, v, w) == Ok::<Value, Fault>(
            Value::Boolean(BoolModel::Literal(op.kind is BangEqual)),
        ) && apply_binary(op, w, v) == Ok::<Value, Fault>(
            Value::Boolean(BoolModel::Literal(op.kind is BangEqual)),
        ),
{
}

/// A runtime error carries the line and the values of the fault.
pub open spec fn reports(e: RunTimeError, f: Fault) -> bool {
    match (e, f) {
        (
            RunTimeError::UnexpectedUnaryToken { line, literal },
            Fault::Unary { line: at, operand },
        ) => line as nat == at && literal@ == operand,
        (
            RunTimeError::UnexpectedBinaryToken { line, left, right },
            Fault::Binary { line: at, left: a, right: b },
        ) => line as nat == at && left@ == a && right@ == b,
        _ => false,
    }
}

/// An evaluation result agrees with its model.
pub open spec fn agrees(r: Result<Literal, RunTimeError>, m: Result<Value, Fault>) -> bool {
    match (r, m) {
        (Ok(v), Ok(w)) => v@ == w,
        (Err(e), Err(f)) => reports(e, f),
        _ => false,
    }
}

fn arith_of(k: &TokenKind) -> (r: Option<ArithOp>)
    ensures
        r == arith_op(*k),
{
    match k {
        TokenKind::Plus => Some(ArithOp::Add),
        TokenKind::Minus => Some(ArithOp::Sub),
        TokenKind::Star => Some(ArithOp::Mul),
        TokenKind::Slash => Some(ArithOp::Div),
        _ => None,
    }
}

fn compare_of(k: &TokenKind) -> (r: Option<CompareOp>)
    ensures
        r == compare_op(*k),
{
    match k {
        TokenKind::Greater => Some(CompareOp::Greater),
        TokenKind::GreaterEqual => Some(CompareOp::GreaterEqual),
        TokenKind::Less => Some(CompareOp::Less),
        TokenKind::LessEqual => Some(CompareOp::LessEqual),
        TokenKind::EqualEqual => Some(CompareOp::Equal),
        _ => None,
    }
}

/// The evaluator.
pub struct Interpreter;

impl Interpreter {
    /// Evaluates `expr`.
    pub fn interpret(expr: Box<Expr>) -> (r: Result<Literal, RunTimeError>)
        ensures
            agrees(r, eval((*expr)@)),
    {
        Self::interpret_inner(expr)
    }

    /// Evaluates `expr` post-order.
    fn interpret_inner(expr: Box<Expr>) -> (r: Result<Literal, RunTimeError>)
        ensures
            agrees(r, eval((*expr)@)),
        decreases expr,
    {
        match *expr {
            Expr::NumberLiteral(n) => Ok(Literal::Number(NumTerm::Literal(n))),
            Expr::BooleanLiteral(b) => Ok(Literal::Boolean(BoolTerm::Literal(b))),
            Expr::StringLiteral(s) => Ok(Literal::String(s)),
            Expr::NoneLiteral => Ok(Literal::Nil),
            Expr::Grouping { expression } => Self::interpret_inner(expression),
            Expr::Binary { left, operator, right } => {
                let l = match Self::interpret_inner(left) {
                    Ok(v) => v,
                    Err(e) => {
                        return Err(e);
                    },
                };
                let r = match Self::interpret_inner(right) {
                    Ok(v) => v,
                    Err(e) => {
                        return Err(e);
                    },
                };
                Self::binary(&operator, l, r)
            },
            Expr::Unary { operator, right } => {
                let v = match Self::interpret_inner(right) {
                    Ok(v) => v,
                    Err(e) => {
                        return Err(e);
                    },
                };
                Self::unary(&operator, v)
            },
        }
    }

    fn binary(operator: &Token, l: Literal, r: Literal) -> (res: Result<Literal, RunTimeError>)
        ensures
            agrees(res, apply_binary(operator@, l@, r@)),
    {
        let k = &operator.kind;
        let is_eq = matches!(k, TokenKind::EqualEqual);
        let is_ne = matches!(k, TokenKind::BangEqual);
        let line = operator.line;
        match (l, r) {
            (Literal::Number(a), Literal::Number(b)) => {
                if let Some(o) = arith_of(k) {
                    Ok(Literal::Number(NumTerm::Arith(o, Box::new(a), Box::new(b))))
                } else if let Some(c) = compare_of(k) {
                    Ok(Literal::Boolean(BoolTerm::Compare(c, Box::new(a), Box::new(b))))
                } else if is_ne {
                    let equal = BoolTerm::Compare(CompareOp::Equal, Box::new(a), Box::new(b));
                    assert(equal@ == BoolModel::Compare(CompareOp::Equal, Box::new(a@), Box::new(b@)));
                    Ok(Literal::Boolean(BoolTerm::Not(Box::new(equal))))
                } else {
                    Err(
                        RunTimeError::UnexpectedBinaryToken {
                            line,
                            left: Literal::Number(a),
                            right: Literal::Number(b),
                        },
                    )
                }
            },
            (Literal::String(a), Literal::String(b)) => {
                if is_eq || is_ne {
                    let same = a == b;
                    Ok(Literal::Boolean(BoolTerm::Literal(if is_eq { same } else { !same })))
                } else {
                    Err(
                        RunTimeError::UnexpectedBinaryToken {
                            line,
                            left: Literal::String(a),
                            right: Literal::String(b),
                        },
                    )
                }
            },
            (Literal::Nil, Literal::Nil) => {
                if is_eq || is_ne {
                    Ok(Literal::Boolean(BoolTerm::Literal(is_eq)))
                } else {
                    Err(
                        RunTimeError::UnexpectedBinaryToken {
                            line,
                            left: Literal::Nil,
                            right: Literal::Nil,
                        },
                    )
                }
            },
            (left, right) => {
                let either_nil = matches!(left, Literal::Nil) || matches!(right, Literal::Nil);
                if either_nil && (is_eq || is_ne) {
                    Ok(Literal::Boolean(BoolTerm::Literal(is_ne)))
                } else {
                    Err(RunTimeError::UnexpectedBinaryToken { line, left, right })
                }
            },
        }
    }

    fn unary(operator: &Token, v: Literal) -> (res: Result<Literal, RunTimeError>)
        ensures
            agrees(res, apply_unary(operator@, v@)),
    {
        let line = operator.line;
        match (operator.kind, v) {
            (TokenKind::Minus, Literal::Number(n)) => Ok(Literal::Number(NumTerm::Negate(Box::new(n)))),
            (TokenKind::Bang, Literal::Boolean(b)) => Ok(Literal::Boolean(BoolTerm::Not(Box::new(b)))),
            (TokenKind::Bang, Literal::Nil) => Ok(Literal::Boolean(BoolTerm::Literal(true))),
            (_, literal) => Err(RunTimeError::UnexpectedUnaryToken { line, literal }),
        }
    }
}

} // verus!
