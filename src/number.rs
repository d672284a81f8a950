use vstd::prelude::*;

verus! {

/// The four arithmetic operators of the language.
#[derive(Debug, Clone, Copy, PartialEq, Eq, Structural)]
pub enum ArithOp {
    Add,
    Sub,
    Mul,
    Div,
}

/// The numeric comparisons of the language. `!=` is the negation of `Equal`.
#[derive(Debug, Clone, Copy, PartialEq, Eq, Structural)]
pub enum CompareOp {
    Greater,
    GreaterEqual,
    Less,
    LessEqual,
    Equal,
}

/// A number value, held as the arithmetic that denotes it: a decimal
/// literal as written in the source, or an operator applied to numbers.
/// Its double-precision value is what IEEE-754 arithmetic gives for that
/// term; the host computes it.
#[derive(Debug, PartialEq)]
pub enum NumTerm {
    Literal(String),
    Arith(ArithOp, Box<NumTerm>, Box<NumTerm>),
    Negate(Box<NumTerm>),
}

/// A boolean value: a constant, a negation, or a comparison of numbers.
#[derive(Debug, PartialEq)]
pub enum BoolTerm {
    Literal(bool),
    Not(Box<BoolTerm>),
    Compare(CompareOp, Box<NumTerm>, Box<NumTerm>),
}

/// The mathematical content of a number term.
pub enum NumModel {
    Literal(Seq<char>),
    Arith(ArithOp, Box<NumModel>, Box<NumModel>),
    Negate(Box<NumModel>),
}

/// The mathematical content of a boolean term.
pub enum BoolModel {
    Literal(bool),
    Not(Box<BoolModel>),
    Compare(CompareOp, Box<NumModel>, Box<NumModel>),
}

pub open spec fn num_model(t: NumTerm) -> NumModel
    decreases t,
{
    match t {
        NumTerm::Literal(s) => NumModel::Literal(s@),
        NumTerm::Arith(op, a, b) => NumModel::Arith(
            op,
            Box::new(num_model(*a)),
            Box::new(num_model(*b)),
        ),
        NumTerm::Negate(a) => NumModel::Negate(Box::new(num_model(*a))),
    }
}

pub open spec fn bool_model(t: BoolTerm) -> BoolModel
    decreases t,
{
    match t {
        BoolTerm::Literal(b) => BoolModel::Literal(b),
        BoolTerm::Not(a) => BoolModel::Not(Box::new(bool_model(*a))),
        BoolTerm::Compare(op, a, b) => BoolModel::Compare(
            op,
            Box::new(num_model(*a)),
            Box::new(num_model(*b)),
        ),
    }
}

impl View for NumTerm {
    type V = NumModel;

    open spec fn view(&self) -> NumModel {
        num_model(*self)
    }
}

impl View for BoolTerm {
    type V = BoolModel;

    open spec fn view(&self) -> BoolModel {
        bool_model(*self)
    }
}

} // verus!
