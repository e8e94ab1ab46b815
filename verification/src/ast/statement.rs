//! Statements.
use vstd::prelude::*;

use crate::ast::expression::Expression;
use crate::ast::function::{FunctionDeclaration, Return};
use crate::ast::view::{
    expression_view, statement_kind_view, statement_view, statements_view, StatementKindView,
    StatementView,
};
use crate::token::Span;

verus! {

#[derive(Debug, PartialEq)]
pub struct Statement {
    pub kind: StatementKind,
    pub position: Span,
}

#[derive(Debug, PartialEq)]
pub enum StatementKind {
    Comment(Comment),
    Declaration(Declaration),
    Assignment(Assignment),
    Block(Block),
    FunctionDeclaration(FunctionDeclaration),
    Return(Return),
    Expression(Expression),
}

#[derive(Debug, PartialEq)]
pub struct Comment {
    pub comment: String,
    pub inline: bool,
}

#[derive(Debug, PartialEq)]
pub struct Declaration {
    pub name: String,
    pub mutable: bool,
    pub value: Box<Expression>,
}

#[derive(Debug, PartialEq)]
pub struct Assignment {
    pub name: String,
    pub value: Box<Expression>,
}

#[derive(Debug, PartialEq)]
pub struct Block {
    pub statements: Vec<Box<Statement>>,
}

impl View for Comment {
    type V = StatementKindView;

    open spec fn view(&self) -> StatementKindView {
        StatementKindView::Comment { text: self.comment@, inline: self.inline }
    }
}

impl View for Declaration {
    type V = StatementKindView;

    open spec fn view(&self) -> StatementKindView {
        StatementKindView::Declaration {
            name: self.name@,
            mutable: self.mutable,
            value: expression_view(*self.value),
        }
    }
}

impl View for Assignment {
    type V = StatementKindView;

    open spec fn view(&self) -> StatementKindView {
        StatementKindView::Assignment { name: self.name@, value: expression_view(*self.value) }
    }
}

impl View for StatementKind {
    type V = StatementKindView;

    open spec fn view(&self) -> StatementKindView {
        statement_kind_view(*self)
    }
}

impl View for Statement {
    type V = StatementView;

    open spec fn view(&self) -> StatementView {
        statement_view(*self)
    }
}

impl View for Block {
    type V = Seq<StatementView>;

    open spec fn view(&self) -> Seq<StatementView> {
        statements_view(self.statements@)
    }
}

} // verus!
