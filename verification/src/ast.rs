//! The AST model: expressions and statements built by the parser and walked
//! by the evaluator. Nodes are immutable after construction and every child
//! is owned exclusively by its parent, so the tree has no sharing and no
//! cycles.

use vstd::prelude::*;

verus! {

/// An infix operator: the four arithmetic operators the language evaluates,
/// all on one precedence tier.
#[derive(Debug, PartialEq, Eq, Clone, Copy)]
pub enum BinOp {
    Plus,
    Minus,
    Times,
    Divide,
}

/// An expression: an identifier, a 64-bit signed integer literal, or an
/// infix application owning its two sub-expressions.
#[derive(Debug, PartialEq)]
pub enum Expr {
    Ident(String),
    Int(i64),
    Infix(Box<Expr>, BinOp, Box<Expr>),
}

/// A statement: a `let` binding, a bare expression evaluated for effect, or
/// a `print`.
#[derive(Debug, PartialEq)]
pub enum Stmt {
    Let(String, Expr),
    Expr(Expr),
    Print(Expr),
}

/// The mathematical model of an expression: identifier text is a sequence of
/// characters instead of an executable `String`.
pub enum ExprModel {
    Ident(Seq<char>),
    Int(i64),
    Infix(Box<ExprModel>, BinOp, Box<ExprModel>),
}

/// The mathematical model of a statement.
pub enum StmtModel {
    Let(Seq<char>, ExprModel),
    Expr(ExprModel),
    Print(ExprModel),
}

/// The model of an expression, child by child.
pub open spec fn expr_model(e: Expr) -> ExprModel
    decreases e,
{
    match e {
        Expr::Ident(name) => ExprModel::Ident(name@),
        Expr::Int(v) => ExprModel::Int(v),
        Expr::Infix(l, op, r) => ExprModel::Infix(
            Box::new(expr_model(*l)),
            op,
            Box::new(expr_model(*r)),
        ),
    }
}

impl View for Expr {
    type V = ExprModel;

    open spec fn view(&self) -> ExprModel {
        expr_model(*self)
    }
}

impl View for Stmt {
    type V = StmtModel;

    open spec fn view(&self) -> StmtModel {
        match self {
            Stmt::Let(name, e) => StmtModel::Let(name@, e@),
            Stmt::Expr(e) => StmtModel::Expr(e@),
            Stmt::Print(e) => StmtModel::Print(e@),
        }
    }
}

/// The view of a statement list, statement by statement.
pub open spec fn stmts_view(ss: Seq<Stmt>) -> Seq<StmtModel> {
    ss.map_values(|s: Stmt| s@)
}

} // verus!
