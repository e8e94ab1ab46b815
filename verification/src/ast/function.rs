//! Function declarations and returns.
use vstd::prelude::*;

use crate::ast::expression::Expression;
use crate::ast::statement::Block;
use crate::ast::types::FunctionType;
use crate::ast::view::{expression_view, function_type_view, statements_view, StatementKindView};

verus! {

#[derive(Debug, PartialEq)]
pub struct FunctionDeclaration {
    pub name: String,
    pub typ: FunctionType,
    pub body: Block,
}

#[derive(Debug, PartialEq)]
pub struct Return {
    pub value: Box<Expression>,
}

impl View for FunctionDeclaration {
    type V = StatementKindView;

    open spec fn view(&self) -> StatementKindView {
        StatementKindView::FunctionDeclaration {
            name: self.name@,
            typ: function_type_view(self.typ),
            body: statements_view(self.body.statements@),
        }
    }
}

impl View for Return {
    type V = StatementKindView;

    open spec fn view(&self) -> StatementKindView {
        StatementKindView::Return(expression_view(*self.value))
    }
}

} // verus!
