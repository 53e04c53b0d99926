//! The abstract syntax tree: one node per statement or expression form.

use vstd::prelude::*;
use crate::num::Num;
use crate::value::Type;

verus! {

/// A binary arithmetic operator.
#[derive(Clone, Copy, Debug, PartialEq, Eq, Structural)]
pub enum BinOp {
    Add,
    Subtract,
    Multiply,
    Divide,
}

/// An expression.
#[derive(Debug)]
pub enum Expr {
    NumberLit(Num),
    TextLit(String),
    TruthLit(bool),
    NothingLit,
    Variable(String),
    Binary(BinOp, Box<Expr>, Box<Expr>),
    CallExpr(String, Vec<Expr>),
    CastExpr(Box<Expr>, Type),
    Interpolate(Vec<Expr>),
}

/// A top-level or nested statement.
#[derive(Debug)]
pub enum Stmt {
    Declare { name: String, declared: Option<Type>, init: Expr },
    Assign { name: String, value: Expr },
    IfStmt { cond: Expr, body: Vec<Stmt> },
    WhileStmt { cond: Expr, body: Vec<Stmt> },
    ExprStmt(Expr),
}

} // verus!
