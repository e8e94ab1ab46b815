//! Expressions.
use vstd::prelude::*;

use crate::ast::types::Type;
use crate::ast::view::{expression_view, ExpressionView};
use crate::token::{Span, Token};

verus! {

#[derive(Debug, PartialEq)]
pub struct Expression {
    pub kind: ExpressionKind,
    pub typ: Type,
    pub position: Span,
}

#[derive(Debug, PartialEq)]
pub enum ExpressionKind {
    Identifier(String),
    Boolean(bool),
    Integer(String),
    Float(String),
    String(String),
    Prefix(PrefixExpression),
    Infix(InfixExpression),
}

#[derive(Debug, PartialEq)]
pub struct PrefixExpression {
    pub operator: Token,
    pub right: Box<Expression>,
}

#[derive(Debug, PartialEq)]
pub struct InfixExpression {
    pub left: Box<Expression>,
    pub operator: Token,
    pub right: Box<Expression>,
}

impl View for Expression {
    type V = ExpressionView;

    open spec fn view(&self) -> ExpressionView {
        expression_view(*self)
    }
}

} // verus!
