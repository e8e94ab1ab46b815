//! The abstract syntax tree.
use vstd::prelude::*;

pub mod copy;
pub mod expression;
pub mod function;
pub mod statement;
pub mod types;
pub mod view;

pub use expression::{Expression, ExpressionKind, InfixExpression, PrefixExpression};
pub use function::{FunctionDeclaration, Return};
pub use statement::{Assignment, Block, Comment, Declaration, Statement, StatementKind};
pub use types::{Field, FunctionType, Parameter, StructType, TupleType, Type};
pub use view::{
    statements_view, ExpressionKindView, ExpressionView, FieldView, FunctionTypeView, ParameterView,
    StatementKindView, StatementView, TypeView,
};

verus! {

/// A parsed source: its statements in the order of the source.
#[derive(Debug, PartialEq)]
pub struct File {
    pub statements: Vec<Box<Statement>>,
}

impl View for File {
    type V = Seq<StatementView>;

    open spec fn view(&self) -> Seq<StatementView> {
        statements_view(self.statements@)
    }
}

impl File {
    pub fn new() -> (file: Self)
        ensures
            file@ == Seq::<StatementView>::empty(),
    {
        Self { statements: Vec::new() }
    }
}

} // verus!
