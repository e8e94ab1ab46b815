//! Copies of the nodes of the tree, node by node.
use vstd::prelude::*;

use crate::ast::File;
use crate::ast::expression::{Expression, ExpressionKind, InfixExpression, PrefixExpression};
use crate::ast::function::{FunctionDeclaration, Return};
use crate::ast::statement::{Assignment, Block, Comment, Declaration, Statement, StatementKind};
use crate::ast::types::{Field, FunctionType, Parameter, StructType, TupleType, Type};
use crate::ast::view::{
    expression_view, field_view, function_type_view, parameter_view, statement_view,
    statements_view, type_view,
};

verus! {

/// A copy of a type.
pub fn copy_type(typ: &Type) -> (copy: Type)
    ensures
        type_view(copy) == type_view(*typ),
    decreases typ,
{
    match typ {
        Type::Unknown => Type::Unknown,
        Type::Name(name) => Type::Name(name.clone()),
        Type::Boolean => Type::Boolean,
        Type::Integer => Type::Integer,
        Type::Float => Type::Float,
        Type::String => Type::String,
        Type::Tuple(tuple) => {
            let elements = copy_types(&tuple.elements);
            let copy = Type::Tuple(TupleType { elements });
            assert(type_view(copy)->Tuple_0 =~= type_view(*typ)->Tuple_0);
            copy
        },
        Type::Struct(structure) => {
            let fields = copy_fields(&structure.fields);
            let copy = Type::Struct(StructType { fields });
            assert(type_view(copy)->Struct_0 =~= type_view(*typ)->Struct_0);
            copy
        },
        Type::Function(function) => Type::Function(copy_function_type(function)),
    }
}

/// A copy of a list of types.
pub fn copy_types(types: &Vec<Type>) -> (copy: Vec<Type>)
    ensures
        copy.len() == types.len(),
        forall|i: int| 0 <= i < types.len() ==> type_view(#[trigger] copy[i]) == type_view(types[i]),
    decreases types,
{
    let mut copy: Vec<Type> = Vec::new();
    let mut i: usize = 0;
    while i < types.len()
        invariant
            i <= types.len(),
            copy.len() == i,
            forall|j: int| 0 <= j < i ==> type_view(#[trigger] copy[j]) == type_view(types[j]),
        decreases types.len() - i,
    {
        copy.push(copy_type(&types[i]));
        i += 1;
    }
    copy
}

/// A copy of a list of fields.
pub fn copy_fields(fields: &Vec<Field>) -> (copy: Vec<Field>)
    ensures
        copy.len() == fields.len(),
        forall|i: int|
            0 <= i < fields.len() ==> field_view(#[trigger] copy[i]) == field_view(fields[i]),
    decreases fields,
{
    let mut copy: Vec<Field> = Vec::new();
    let mut i: usize = 0;
    while i < fields.len()
        invariant
            i <= fields.len(),
            copy.len() == i,
            forall|j: int| 0 <= j < i ==> field_view(#[trigger] copy[j]) == field_view(fields[j]),
        decreases fields.len() - i,
    {
        copy.push(copy_field(&fields[i]));
        i += 1;
    }
    copy
}

/// A copy of a field.
pub fn copy_field(field: &Field) -> (copy: Field)
    ensures
        field_view(copy) == field_view(*field),
    decreases field,
{
    Field {
        name: field.name.clone(),
        typ: copy_type(&field.typ),
        default: match &field.default {
            Some(value) => Some(Box::new(copy_expression(&**value))),
            None => None,
        },
    }
}

/// A copy of a list of parameters.
pub fn copy_parameters(parameters: &Vec<Parameter>) -> (copy: Vec<Parameter>)
    ensures
        copy.len() == parameters.len(),
        forall|i: int|
            0 <= i < parameters.len() ==> parameter_view(#[trigger] copy[i]) == parameter_view(
                parameters[i],
            ),
    decreases parameters,
{
    let mut copy: Vec<Parameter> = Vec::new();
    let mut i: usize = 0;
    while i < parameters.len()
        invariant
            i <= parameters.len(),
            copy.len() == i,
            forall|j: int|
                0 <= j < i ==> parameter_view(#[trigger] copy[j]) == parameter_view(parameters[j]),
        decreases parameters.len() - i,
    {
        copy.push(copy_parameter(&parameters[i]));
        i += 1;
    }
    copy
}

/// A copy of a parameter.
pub fn copy_parameter(parameter: &Parameter) -> (copy: Parameter)
    ensures
        parameter_view(copy) == parameter_view(*parameter),
    decreases parameter,
{
    Parameter { name: parameter.name.clone(), typ: copy_type(&parameter.typ) }
}

/// A copy of a function type.
pub fn copy_function_type(function: &FunctionType) -> (copy: FunctionType)
    ensures
        function_type_view(copy) == function_type_view(*function),
    decreases function,
{
    let parameters = copy_parameters(&function.parameters);
    let copy = FunctionType {
        parameters,
        return_type: match &function.return_type {
            Some(typ) => Some(Box::new(copy_type(&**typ))),
            None => None,
        },
    };
    assert(function_type_view(copy).parameters =~= function_type_view(*function).parameters);
    copy
}

/// A copy of an expression.
pub fn copy_expression(expression: &Expression) -> (copy: Expression)
    ensures
        expression_view(copy) == expression_view(*expression),
    decreases expression,
{
    let kind = match &expression.kind {
        ExpressionKind::Identifier(name) => ExpressionKind::Identifier(name.clone()),
        ExpressionKind::Boolean(value) => ExpressionKind::Boolean(*value),
        ExpressionKind::Integer(digits) => ExpressionKind::Integer(digits.clone()),
        ExpressionKind::Float(digits) => ExpressionKind::Float(digits.clone()),
        ExpressionKind::String(contents) => ExpressionKind::String(contents.clone()),
        ExpressionKind::Prefix(prefix) => ExpressionKind::Prefix(
            PrefixExpression {
                operator: prefix.operator.clone(),
                right: Box::new(copy_expression(&*prefix.right)),
            },
        ),
        ExpressionKind::Infix(infix) => ExpressionKind::Infix(
            InfixExpression {
                left: Box::new(copy_expression(&*infix.left)),
                operator: infix.operator.clone(),
                right: Box::new(copy_expression(&*infix.right)),
            },
        ),
    };
    Expression { kind, typ: copy_type(&expression.typ), position: expression.position }
}

/// A copy of a statement.
pub fn copy_statement(statement: &Statement) -> (copy: Statement)
    ensures
        statement_view(copy) == statement_view(*statement),
    decreases statement,
{
    let kind = match &statement.kind {
        StatementKind::Comment(comment) => StatementKind::Comment(
            Comment { comment: comment.comment.clone(), inline: comment.inline },
        ),
        StatementKind::Declaration(declaration) => StatementKind::Declaration(
            Declaration {
                name: declaration.name.clone(),
                mutable: declaration.mutable,
                value: Box::new(copy_expression(&*declaration.value)),
            },
        ),
        StatementKind::Assignment(assignment) => StatementKind::Assignment(
            Assignment {
                name: assignment.name.clone(),
                value: Box::new(copy_expression(&*assignment.value)),
            },
        ),
        StatementKind::Block(block) => StatementKind::Block(
            Block { statements: copy_statements(&block.statements) },
        ),
        StatementKind::FunctionDeclaration(function) => StatementKind::FunctionDeclaration(
            FunctionDeclaration {
                name: function.name.clone(),
                typ: copy_function_type(&function.typ),
                body: Block { statements: copy_statements(&function.body.statements) },
            },
        ),
        StatementKind::Return(ret) => StatementKind::Return(
            Return { value: Box::new(copy_expression(&*ret.value)) },
        ),
        StatementKind::Expression(expression) => StatementKind::Expression(
            copy_expression(expression),
        ),
    };
    Statement { kind, position: statement.position }
}

/// A copy of a list of statements.
pub fn copy_statements(statements: &Vec<Box<Statement>>) -> (copy: Vec<Box<Statement>>)
    ensures
        statements_view(copy@) == statements_view(statements@),
    decreases statements,
{
    let mut copy: Vec<Box<Statement>> = Vec::new();
    let mut i: usize = 0;
    while i < statements.len()
        invariant
            i <= statements.len(),
            copy.len() == i,
            forall|j: int|
                0 <= j < i ==> statement_view(*#[trigger] copy[j]) == statement_view(
                    *statements[j],
                ),
        decreases statements.len() - i,
    {
        copy.push(Box::new(copy_statement(&*statements[i])));
        i += 1;
    }
    assert(statements_view(copy@) =~= statements_view(statements@));
    copy
}

impl Clone for Type {
    fn clone(&self) -> (copy: Self)
        ensures
            copy@ == self@,
    {
        copy_type(self)
    }
}

impl Clone for TupleType {
    fn clone(&self) -> (copy: Self)
        ensures
            copy@ == self@,
    {
        let copy = TupleType { elements: copy_types(&self.elements) };
        assert(copy@ =~= self@);
        copy
    }
}

impl Clone for StructType {
    fn clone(&self) -> (copy: Self)
        ensures
            copy@ == self@,
    {
        let copy = StructType { fields: copy_fields(&self.fields) };
        assert(copy@ =~= self@);
        copy
    }
}

impl Clone for Field {
    fn clone(&self) -> (copy: Self)
        ensures
            copy@ == self@,
    {
        copy_field(self)
    }
}

impl Clone for FunctionType {
    fn clone(&self) -> (copy: Self)
        ensures
            copy@ == self@,
    {
        copy_function_type(self)
    }
}

impl Clone for Parameter {
    fn clone(&self) -> (copy: Self)
        ensures
            copy@ == self@,
    {
        copy_parameter(self)
    }
}

impl Clone for Expression {
    fn clone(&self) -> (copy: Self)
        ensures
            copy@ == self@,
    {
        copy_expression(self)
    }
}

impl Clone for PrefixExpression {
    fn clone(&self) -> (copy: Self)
        ensures
            copy.operator@ == self.operator@,
            expression_view(*copy.right) == expression_view(*self.right),
    {
        PrefixExpression {
            operator: self.operator.clone(),
            right: Box::new(copy_expression(&*self.right)),
        }
    }
}

impl Clone for InfixExpression {
    fn clone(&self) -> (copy: Self)
        ensures
            expression_view(*copy.left) == expression_view(*self.left),
            copy.operator@ == self.operator@,
            expression_view(*copy.right) == expression_view(*self.right),
    {
        InfixExpression {
            left: Box::new(copy_expression(&*self.left)),
            operator: self.operator.clone(),
            right: Box::new(copy_expression(&*self.right)),
        }
    }
}

impl Clone for Comment {
    fn clone(&self) -> (copy: Self)
        ensures
            copy@ == self@,
    {
        Comment { comment: self.comment.clone(), inline: self.inline }
    }
}

impl Clone for Declaration {
    fn clone(&self) -> (copy: Self)
        ensures
            copy@ == self@,
    {
        Declaration {
            name: self.name.clone(),
            mutable: self.mutable,
            value: Box::new(copy_expression(&*self.value)),
        }
    }
}

impl Clone for Assignment {
    fn clone(&self) -> (copy: Self)
        ensures
            copy@ == self@,
    {
        Assignment { name: self.name.clone(), value: Box::new(copy_expression(&*self.value)) }
    }
}

impl Clone for FunctionDeclaration {
    fn clone(&self) -> (copy: Self)
        ensures
            copy@ == self@,
    {
        FunctionDeclaration {
            name: self.name.clone(),
            typ: copy_function_type(&self.typ),
            body: Block { statements: copy_statements(&self.body.statements) },
        }
    }
}

impl Clone for Return {
    fn clone(&self) -> (copy: Self)
        ensures
            copy@ == self@,
    {
        Return { value: Box::new(copy_expression(&*self.value)) }
    }
}

impl Clone for Statement {
    fn clone(&self) -> (copy: Self)
        ensures
            copy@ == self@,
    {
        copy_statement(self)
    }
}

impl Clone for Block {
    fn clone(&self) -> (copy: Self)
        ensures
            copy@ == self@,
    {
        Block { statements: copy_statements(&self.statements) }
    }
}

impl Clone for File {
    fn clone(&self) -> (copy: Self)
        ensures
            copy@ == self@,
    {
        File { statements: copy_statements(&self.statements) }
    }
}

} // verus!
