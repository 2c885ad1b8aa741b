//! Expression trees.
use vstd::prelude::*;

use crate::op_code::{Operand, OperandV};

verus! {

/// Binary operator of an [`Expr::Binary`] node.
#[derive(Debug, Clone, Copy, PartialEq, Eq, Structural)]
pub enum BinOp {
    Add,
    Sub,
    Mul,
    Div,
    Rem,
    Eq,
    Ne,
    Lt,
    Le,
    Gt,
    Ge,
    And,
    Or,
    BitAnd,
    BitOr,
    BitXor,
    Shl,
    Shr,
}

/// Unary operator of an [`Expr::Unary`] node.
#[derive(Debug, Clone, Copy, PartialEq, Eq, Structural)]
pub enum UnOp {
    Neg,
    Not,
    BitNot,
}

/// An expression tree. Leaves are operands; inner nodes apply an operator,
/// or read a field of the object the inner expression evaluates to.
#[derive(Debug, PartialEq)]
pub enum Expr {
    Operand(Operand),
    Binary(Box<Expr>, BinOp, Box<Expr>),
    Unary(UnOp, Box<Expr>),
    Field(Box<Expr>, String),
}

/// Mathematical model of an [`Expr`].
pub enum ExprV {
    Operand(OperandV),
    Binary(Box<ExprV>, BinOp, Box<ExprV>),
    Unary(UnOp, Box<ExprV>),
    Field(Box<ExprV>, Seq<char>),
}

pub open spec fn expr_view(e: Expr) -> ExprV
    decreases e,
{
    match e {
        Expr::Operand(o) => ExprV::Operand(o@),
        Expr::Binary(l, op, r) => ExprV::Binary(Box::new(expr_view(*l)), op, Box::new(expr_view(*r))),
        Expr::Unary(op, x) => ExprV::Unary(op, Box::new(expr_view(*x))),
        Expr::Field(x, name) => ExprV::Field(Box::new(expr_view(*x)), name@),
    }
}

impl View for Expr {
    type V = ExprV;

    open spec fn view(&self) -> ExprV {
        expr_view(*self)
    }
}

} // verus!
