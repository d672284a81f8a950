use vstd::prelude::*;

use crate::number::{BoolModel, BoolTerm, NumModel, NumTerm};
use crate::token::{Token, TokenModel};

verus! {

/// An expression tree. Each node owns its children. A number literal keeps
/// its lexeme; a string literal keeps its lexeme, quotes included.
#[derive(Debug, PartialEq)]
pub enum Expr {
    Binary { left: Box<Expr>, operator: Token, right: Box<Expr> },
    Unary { operator: Token, right: Box<Expr> },
    Grouping { expression: Box<Expr> },
    StringLiteral(String),
    BooleanLiteral(bool),
    NoneLiteral,
    NumberLiteral(String),
}

/// The mathematical content of an expression tree.
pub enum ExprModel {
    Binary { left: Box<ExprModel>, operator: TokenModel, right: Box<ExprModel> },
    Unary { operator: TokenModel, right: Box<ExprModel> },
    Grouping { expression: Box<ExprModel> },
    StringLiteral(Seq<char>),
    BooleanLiteral(bool),
    NoneLiteral,
    NumberLiteral(Seq<char>),
}

pub open spec fn expr_model(e: Expr) -> ExprModel
    decreases e,
{
    match e {
        Expr::Binary { left, operator, right } => ExprModel::Binary {
            left: Box::new(expr_model(*left)),
            operator: operator@,
            right: Box::new(expr_model(*right)),
        },
        Expr::Unary { operator, right } => ExprModel::Unary {
            operator: operator@,
            right: Box::new(expr_model(*right)),
        },
        Expr::Grouping { expression } => ExprModel::Grouping {
            expression: Box::new(expr_model(*expression)),
        },
        Expr::StringLiteral(s) => ExprModel::StringLiteral(s@),
        Expr::BooleanLiteral(b) => ExprModel::BooleanLiteral(b),
        Expr::NoneLiteral => ExprModel::NoneLiteral,
        Expr::NumberLiteral(s) => ExprModel::NumberLiteral(s@),
    }
}

impl View for Expr {
    type V = ExprModel;

    open spec fn view(&self) -> ExprModel {
        expr_model(*self)
    }
}

/// A runtime value.
#[derive(Debug, PartialEq)]
pub enum Literal {
    Number(NumTerm),
    String(String),
    Boolean(BoolTerm),
    Nil,
}

/// The mathematical content of a runtime value.
pub enum Value {
    Number(NumModel),
    Str(Seq<char>),
    Boolean(BoolModel),
    Nil,
}

impl View for Literal {
    type V = Value;

    open spec fn view(&self) -> Value {
        match self {
            Literal::Number(n) => Value::Number(n@),
            Literal::String(s) => Value::Str(s@),
            Literal::Boolean(b) => Value::Boolean(b@),
            Literal::Nil => Value::Nil,
        }
    }
}

} // verus!
