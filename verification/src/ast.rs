//! The syntax tree, and the mathematical view of each of its types.

use vstd::prelude::*;

verus! {

/// A binary arithmetic operator.
#[derive(Debug, Clone, Copy, PartialEq, Eq)]
pub enum BinOp {
    Add,
    Sub,
    Mul,
    Div,
}

/// An expression: something that reduces to a number or a string.
#[derive(Debug, PartialEq, Eq)]
pub enum Expr {
    Number(i32),
    Variable(String),
    StringLiteral(String),
    BinaryOp(Box<Expr>, BinOp, Box<Expr>),
}

/// One executable unit of a program.
#[derive(Debug, PartialEq, Eq)]
pub enum Statement {
    VarDecl(String, Expr),
    ValDecl(String, Expr),
    Assign(String, Expr),
    Print(Expr),
}

/// What an [`Expr`] is, with each string taken as its sequence of characters.
pub enum ExprView {
    Number(i32),
    Variable(Seq<char>),
    StringLiteral(Seq<char>),
    BinaryOp(Box<ExprView>, BinOp, Box<ExprView>),
}

/// What a [`Statement`] is, with each string taken as its sequence of characters.
pub enum StatementView {
    VarDecl(Seq<char>, ExprView),
    ValDecl(Seq<char>, ExprView),
    Assign(Seq<char>, ExprView),
    Print(ExprView),
}

impl Expr {
    /// The expression as a mathematical tree.
    pub open spec fn tree(self) -> ExprView
        decreases self,
    {
        match self {
            Expr::Number(n) => ExprView::Number(n),
            Expr::Variable(name) => ExprView::Variable(name@),
            Expr::StringLiteral(text) => ExprView::StringLiteral(text@),
            Expr::BinaryOp(left, op, right) => ExprView::BinaryOp(
                Box::new(left.tree()),
                op,
                Box::new(right.tree()),
            ),
        }
    }
}

impl View for Expr {
    type V = ExprView;

    open spec fn view(&self) -> ExprView {
        self.tree()
    }
}

impl View for Statement {
    type V = StatementView;

    open spec fn view(&self) -> StatementView {
        match self {
            Statement::VarDecl(name, value) => StatementView::VarDecl(name@, value@),
            Statement::ValDecl(name, value) => StatementView::ValDecl(name@, value@),
            Statement::Assign(name, value) => StatementView::Assign(name@, value@),
            Statement::Print(value) => StatementView::Print(value@),
        }
    }
}

/// The views of a list of statements, in order.
pub open spec fn statement_views(statements: Seq<Statement>) -> Seq<StatementView> {
    statements.map_values(|s: Statement| s@)
}

} // verus!
