//! The first, smaller syntax tree of the language: integer and string literals,
//! arithmetic, assignments and `if`.
use vstd::prelude::*;

verus! {

/// A literal, as written.
#[derive(Debug)]
pub enum Literal {
    Int(String),
    String(String),
}

/// An arithmetic operator.
#[derive(Debug, Clone, Copy, PartialEq, Eq, Structural)]
pub enum BinaryOp {
    Add,
    Sub,
    Mul,
    Div,
    Mod,
}

/// A sign.
#[derive(Debug, Clone, Copy, PartialEq, Eq, Structural)]
pub enum UnaryOp {
    Positive,
    Negative,
}

/// A name.
pub type Identifier = String;

/// An expression.
#[derive(Debug)]
pub enum Expr {
    Literal(Literal),
    Identifier(Identifier),
    Binary { left: Box<Expr>, op: BinaryOp, right: Box<Expr> },
    Unary { op: UnaryOp, expr: Box<Expr> },
}

/// A statement.
#[derive(Debug)]
pub enum Stmt {
    Assignment { ident: Identifier, expr: Expr },
    Expr(Expr),
    If { cond: Expr, then_branch: Vec<Stmt> },
}

/// A program: its statements.
pub struct Program {
    pub statements: Vec<Stmt>,
}

} // verus!
