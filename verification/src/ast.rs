//! The syntax tree that the parser builds.

use vstd::prelude::*;
use crate::token::{Token, TokenView};

verus! {

/// A value-producing construct inside a statement.
#[derive(Debug)]
pub enum Expression {
    Identifier { token: Token, value: String },
}

/// The mathematical value of an [`Expression`].
pub enum ExpressionView {
    Identifier { token: TokenView, value: Seq<char> },
}

impl View for Expression {
    type V = ExpressionView;

    open spec fn view(&self) -> ExpressionView {
        match self {
            Expression::Identifier { token, value } => ExpressionView::Identifier {
                token: token@,
                value: value@,
            },
        }
    }
}

/// A top-level construct of a program.
///
/// `Illegal` stands for a statement that could not be parsed.
#[derive(Debug)]
pub enum Statement {
    Let { token: Token, name: String, value: Option<Box<Expression>> },
    Return { token: Token, value: Option<Box<Expression>> },
    Illegal,
}

/// The mathematical value of a [`Statement`].
pub enum StatementView {
    Let { token: TokenView, name: Seq<char>, value: Option<ExpressionView> },
    Return { token: TokenView, value: Option<ExpressionView> },
    Illegal,
}

/// The value of an optional boxed expression.
pub open spec fn value_view(value: Option<Box<Expression>>) -> Option<ExpressionView> {
    match value {
        Some(expression) => Some(expression@),
        None => None,
    }
}

impl View for Statement {
    type V = StatementView;

    open spec fn view(&self) -> StatementView {
        match self {
            Statement::Let { token, name, value } => StatementView::Let {
                token: token@,
                name: name@,
                value: value_view(*value),
            },
            Statement::Return { token, value } => StatementView::Return {
                token: token@,
                value: value_view(*value),
            },
            Statement::Illegal => StatementView::Illegal,
        }
    }
}

/// The values of a sequence of statements, in the same order.
pub open spec fn statement_views(statements: Seq<Statement>) -> Seq<StatementView> {
    Seq::new(statements.len(), |i: int| statements[i]@)
}

/// A parsed program: its statements in source order.
pub struct Program {
    pub statements: Vec<Statement>,
}

impl View for Program {
    type V = Seq<StatementView>;

    open spec fn view(&self) -> Seq<StatementView> {
        statement_views(self.statements@)
    }
}

impl Program {
    /// A program without statements.
    pub fn new() -> (program: Program)
        ensures
            program@ == Seq::<StatementView>::empty(),
    {
        Program { statements: Vec::new() }
    }
}

impl ExpressionView {
    /// The text that describes an expression.
    pub open spec fn describe(self) -> Seq<char> {
        match self {
            ExpressionView::Identifier { token, value } => "Let(token:"@ + token.label()
                + ", value:"@ + value + ")"@,
        }
    }
}

impl StatementView {
    /// The text that describes a statement. The value of a statement is
    /// not shown.
    pub open spec fn describe(self) -> Seq<char> {
        match self {
            StatementView::Let { token, name, .. } => "Let(token:"@ + token.label()
                + ", name:"@ + name + ", value:)"@,
            StatementView::Return { token, .. } => "Return(token:"@ + token.label()
                + ", value:)"@,
            StatementView::Illegal => "Illegal()"@,
        }
    }
}

impl Expression {
    /// The text that describes the expression.
    pub fn describe(&self) -> (text: String)
        ensures
            text@ == self@.describe(),
    {
        match self {
            Expression::Identifier { token, value } => {
                let label = token.label();
                String::from_str("Let(token:").concat(label.as_str()).concat(", value:").concat(
                    value.as_str(),
                ).concat(")")
            },
        }
    }
}

impl Statement {
    /// The text that describes the statement.
    pub fn describe(&self) -> (text: String)
        ensures
            text@ == self@.describe(),
    {
        match self {
            Statement::Let { token, name, .. } => {
                let label = token.label();
                String::from_str("Let(token:").concat(label.as_str()).concat(", name:").concat(
                    name.as_str(),
                ).concat(", value:)")
            },
            Statement::Return { token, .. } => {
                let label = token.label();
                String::from_str("Return(token:").concat(label.as_str()).concat(", value:)")
            },
            Statement::Illegal => String::from_str("Illegal()"),
        }
    }
}

} // verus!
