//! The syntax tree consumed by the evaluator.
//!
//! The language is deliberately small: variable declarations, expression
//! statements, return statements, and call expressions whose callee is an
//! identifier and whose arguments are string, numeric or identifier
//! primaries.

use vstd::prelude::*;

verus! {

/// A primary expression: a literal or an identifier.
#[derive(Debug)]
pub enum Arg {
    Str(String),
    Num(i64),
    Ident(String),
}

/// The mathematical form of an `Arg`.
pub enum ArgModel {
    Str(Seq<char>),
    Num(int),
    Ident(Seq<char>),
}

impl DeepView for Arg {
    type V = ArgModel;

    open spec fn deep_view(&self) -> ArgModel {
        match self {
            Arg::Str(s) => ArgModel::Str(s@),
            Arg::Num(n) => ArgModel::Num(*n as int),
            Arg::Ident(s) => ArgModel::Ident(s@),
        }
    }
}

/// An expression: a primary, or a call of an identifier.
#[derive(Debug)]
pub enum Expr {
    Primary(Arg),
    Call { callee: String, args: Vec<Arg> },
}

/// The mathematical form of an `Expr`.
pub enum ExprModel {
    Primary(ArgModel),
    Call { callee: Seq<char>, args: Seq<ArgModel> },
}

impl DeepView for Expr {
    type V = ExprModel;

    open spec fn deep_view(&self) -> ExprModel {
        match self {
            Expr::Primary(a) => ExprModel::Primary(a.deep_view()),
            Expr::Call { callee, args } => ExprModel::Call {
                callee: callee@,
                args: args.deep_view(),
            },
        }
    }
}

/// A statement.
#[derive(Debug)]
pub enum Stmt {
    /// `var name = init ;` — binds into the current scope.
    VarDecl { name: String, init: Expr },
    /// `expr ;` — evaluated for its effect, the value is discarded.
    Expr(Expr),
    /// `return expr? ;` — ends the run with a final value.
    Return(Option<Expr>),
}

/// The mathematical form of a `Stmt`.
pub enum StmtModel {
    VarDecl { name: Seq<char>, init: ExprModel },
    Expr(ExprModel),
    Return(Option<ExprModel>),
}

impl DeepView for Stmt {
    type V = StmtModel;

    open spec fn deep_view(&self) -> StmtModel {
        match self {
            Stmt::VarDecl { name, init } => StmtModel::VarDecl {
                name: name@,
                init: init.deep_view(),
            },
            Stmt::Expr(e) => StmtModel::Expr(e.deep_view()),
            Stmt::Return(e) => StmtModel::Return(e.deep_view()),
        }
    }
}

} // verus!
