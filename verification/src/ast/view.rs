//! The mathematical values of the nodes of the tree: the same shapes, with texts as sequences
//! of characters and lists as sequences.
use vstd::prelude::*;

use crate::ast::expression::{Expression, ExpressionKind};
use crate::ast::statement::{Statement, StatementKind};
use crate::ast::types::{Field, FunctionType, Parameter, Type};
use crate::token::{Span, TokenView};

verus! {

/// The value of a [`Type`].
pub enum TypeView {
    /// Not known yet.
    Unknown,
    Name(Seq<char>),
    Boolean,
    Integer,
    Float,
    String,
    /// A tuple of the element types.
    Tuple(Seq<TypeView>),
    /// A struct of the fields.
    Struct(Seq<FieldView>),
    Function(FunctionTypeView),
}

/// The value of a [`Field`].
pub struct FieldView {
    pub name: Seq<char>,
    pub typ: TypeView,
    pub default: Option<ExpressionView>,
}

/// The value of a [`FunctionType`].
pub struct FunctionTypeView {
    pub parameters: Seq<ParameterView>,
    pub return_type: Option<Box<TypeView>>,
}

/// The value of a [`Parameter`].
pub struct ParameterView {
    pub name: Seq<char>,
    pub typ: TypeView,
}

/// The value of an [`Expression`].
pub struct ExpressionView {
    pub kind: ExpressionKindView,
    pub typ: TypeView,
    pub position: Span,
}

/// The value of an [`ExpressionKind`].
pub enum ExpressionKindView {
    Identifier(Seq<char>),
    Boolean(bool),
    /// An integer literal, as it is written.
    Integer(Seq<char>),
    /// A float literal, as it is written.
    Float(Seq<char>),
    /// A string literal: what stands between the quotes.
    String(Seq<char>),
    Prefix { operator: TokenView, right: Box<ExpressionView> },
    Infix { left: Box<ExpressionView>, operator: TokenView, right: Box<ExpressionView> },
}

/// The value of a [`Statement`].
pub struct StatementView {
    pub kind: StatementKindView,
    pub position: Span,
}

/// The value of a [`StatementKind`].
pub enum StatementKindView {
    /// A comment: a line comment if `inline`, else a block comment.
    Comment { text: Seq<char>, inline: bool },
    Declaration { name: Seq<char>, mutable: bool, value: ExpressionView },
    Assignment { name: Seq<char>, value: ExpressionView },
    Block(Seq<StatementView>),
    FunctionDeclaration { name: Seq<char>, typ: FunctionTypeView, body: Seq<StatementView> },
    Return(ExpressionView),
    Expression(ExpressionView),
}

pub open spec fn type_view(typ: Type) -> TypeView
    decreases typ,
{
    match typ {
        Type::Unknown => TypeView::Unknown,
        Type::Name(name) => TypeView::Name(name@),
        Type::Boolean => TypeView::Boolean,
        Type::Integer => TypeView::Integer,
        Type::Float => TypeView::Float,
        Type::String => TypeView::String,
        Type::Tuple(tuple) => TypeView::Tuple(
            Seq::new(
                tuple.elements.len() as nat,
                |i: int|
                    if 0 <= i < tuple.elements.len() {
                        type_view(tuple.elements[i])
                    } else {
                        arbitrary()
                    },
            ),
        ),
        Type::Struct(structure) => TypeView::Struct(
            Seq::new(
                structure.fields.len() as nat,
                |i: int|
                    if 0 <= i < structure.fields.len() {
                        field_view(structure.fields[i])
                    } else {
                        arbitrary()
                    },
            ),
        ),
        Type::Function(function) => TypeView::Function(function_type_view(function)),
    }
}

/// The values of the types that have no parts.
pub proof fn lemma_plain_types()
    ensures
        type_view(Type::Unknown) == TypeView::Unknown,
        type_view(Type::Boolean) == TypeView::Boolean,
        type_view(Type::Integer) == TypeView::Integer,
        type_view(Type::Float) == TypeView::Float,
        type_view(Type::String) == TypeView::String,
        forall|name: String| #[trigger] type_view(Type::Name(name)) == TypeView::Name(name@),
{
}

pub open spec fn field_view(field: Field) -> FieldView
    decreases field,
{
    FieldView {
        name: field.name@,
        typ: type_view(field.typ),
        default: match field.default {
            Some(value) => Some(expression_view(*value)),
            None => None,
        },
    }
}

pub open spec fn function_type_view(function: FunctionType) -> FunctionTypeView
    decreases function,
{
    FunctionTypeView {
        parameters: Seq::new(
            function.parameters.len() as nat,
            |i: int|
                if 0 <= i < function.parameters.len() {
                    parameter_view(function.parameters[i])
                } else {
                    arbitrary()
                },
        ),
        return_type: match function.return_type {
            Some(typ) => Some(Box::new(type_view(*typ))),
            None => None,
        },
    }
}

pub open spec fn parameter_view(parameter: Parameter) -> ParameterView
    decreases parameter,
{
    ParameterView { name: parameter.name@, typ: type_view(parameter.typ) }
}

pub open spec fn expression_view(expression: Expression) -> ExpressionView
    decreases expression,
{
    ExpressionView {
        kind: match expression.kind {
            ExpressionKind::Identifier(name) => ExpressionKindView::Identifier(name@),
            ExpressionKind::Boolean(value) => ExpressionKindView::Boolean(value),
            ExpressionKind::Integer(digits) => ExpressionKindView::Integer(digits@),
            ExpressionKind::Float(digits) => ExpressionKindView::Float(digits@),
            ExpressionKind::String(contents) => ExpressionKindView::String(contents@),
            ExpressionKind::Prefix(prefix) => ExpressionKindView::Prefix {
                operator: prefix.operator@,
                right: Box::new(expression_view(*prefix.right)),
            },
            ExpressionKind::Infix(infix) => ExpressionKindView::Infix {
                left: Box::new(expression_view(*infix.left)),
                operator: infix.operator@,
                right: Box::new(expression_view(*infix.right)),
            },
        },
        typ: type_view(expression.typ),
        position: expression.position,
    }
}

pub open spec fn statement_view(statement: Statement) -> StatementView
    decreases statement,
{
    StatementView { kind: statement_kind_view(statement.kind), position: statement.position }
}

pub open spec fn statement_kind_view(kind: StatementKind) -> StatementKindView
    decreases kind,
{
    match kind {
        StatementKind::Comment(comment) => StatementKindView::Comment {
            text: comment.comment@,
            inline: comment.inline,
        },
        StatementKind::Declaration(declaration) => StatementKindView::Declaration {
            name: declaration.name@,
            mutable: declaration.mutable,
            value: expression_view(*declaration.value),
        },
        StatementKind::Assignment(assignment) => StatementKindView::Assignment {
            name: assignment.name@,
            value: expression_view(*assignment.value),
        },
        StatementKind::Block(block) => StatementKindView::Block(
            statements_view(block.statements@),
        ),
        StatementKind::FunctionDeclaration(function) => StatementKindView::FunctionDeclaration {
            name: function.name@,
            typ: function_type_view(function.typ),
            body: statements_view(function.body.statements@),
        },
        StatementKind::Return(ret) => StatementKindView::Return(expression_view(*ret.value)),
        StatementKind::Expression(expression) => StatementKindView::Expression(
            expression_view(expression),
        ),
    }
}

/// The value of a statement, by the values of its parts.
pub proof fn lemma_statement_kinds(kind: StatementKind)
    ensures
        match kind {
            StatementKind::Comment(comment) => statement_kind_view(kind) == comment@,
            StatementKind::Declaration(declaration) => statement_kind_view(kind) == declaration@,
            StatementKind::Assignment(assignment) => statement_kind_view(kind) == assignment@,
            StatementKind::Block(block) => statement_kind_view(kind) == StatementKindView::Block(
                block@,
            ),
            StatementKind::FunctionDeclaration(function) => statement_kind_view(kind)
                == function@,
            StatementKind::Return(ret) => statement_kind_view(kind) == ret@,
            StatementKind::Expression(expression) => statement_kind_view(kind)
                == StatementKindView::Expression(expression@),
        },
{
}

/// The values of a list of types.
pub open spec fn types_view(types: Seq<Type>) -> Seq<TypeView> {
    Seq::new(types.len(), |i: int| type_view(types[i]))
}

/// The values of a list of fields.
pub open spec fn fields_view(fields: Seq<Field>) -> Seq<FieldView> {
    Seq::new(fields.len(), |i: int| field_view(fields[i]))
}

/// The values of a list of parameters.
pub open spec fn parameters_view(parameters: Seq<Parameter>) -> Seq<ParameterView> {
    Seq::new(parameters.len(), |i: int| parameter_view(parameters[i]))
}

/// The values of the types that have parts, by the values of the parts.
pub proof fn lemma_compound_types(typ: Type)
    ensures
        match typ {
            Type::Tuple(tuple) => type_view(typ) == TypeView::Tuple(
                types_view(tuple.elements@),
            ),
            Type::Struct(structure) => type_view(typ) == TypeView::Struct(
                fields_view(structure.fields@),
            ),
            Type::Function(function) => type_view(typ) == TypeView::Function(
                function_type_view(function),
            ),
            _ => true,
        },
{
    match typ {
        Type::Tuple(tuple) => {
            assert(type_view(typ)->Tuple_0 =~= types_view(tuple.elements@));
        },
        Type::Struct(structure) => {
            assert(type_view(typ)->Struct_0 =~= fields_view(structure.fields@));
        },
        _ => {},
    }
}

/// The value of a function type, by the values of its parts.
pub proof fn lemma_function_type(function: FunctionType)
    ensures
        function_type_view(function) == (FunctionTypeView {
            parameters: parameters_view(function.parameters@),
            return_type: match function.return_type {
                Some(typ) => Some(Box::new(type_view(*typ))),
                None => None,
            },
        }),
{
    assert(function_type_view(function).parameters =~= parameters_view(function.parameters@));
}

/// The values of a list with one more item are the values of the list, then that of the item.
pub proof fn lemma_views_push()
    ensures
        forall|types: Seq<Type>, typ: Type| #[trigger]
            types_view(types.push(typ)) == types_view(types).push(type_view(typ)),
        forall|fields: Seq<Field>, field: Field| #[trigger]
            fields_view(fields.push(field)) == fields_view(fields).push(field_view(field)),
        forall|parameters: Seq<Parameter>, parameter: Parameter| #[trigger]
            parameters_view(parameters.push(parameter)) == parameters_view(parameters).push(
                parameter_view(parameter),
            ),
        forall|statements: Seq<Box<Statement>>, statement: Box<Statement>| #[trigger]
            statements_view(statements.push(statement)) == statements_view(statements).push(
                statement_view(*statement),
            ),
        types_view(Seq::empty()) == Seq::<TypeView>::empty(),
        fields_view(Seq::empty()) == Seq::<FieldView>::empty(),
        parameters_view(Seq::empty()) == Seq::<ParameterView>::empty(),
        statements_view(Seq::empty()) == Seq::<StatementView>::empty(),
{
    assert forall|types: Seq<Type>, typ: Type| #[trigger]
        types_view(types.push(typ)) == types_view(types).push(type_view(typ)) by {
        assert(types_view(types.push(typ)) =~= types_view(types).push(type_view(typ)));
    }
    assert forall|fields: Seq<Field>, field: Field| #[trigger]
        fields_view(fields.push(field)) == fields_view(fields).push(field_view(field)) by {
        assert(fields_view(fields.push(field)) =~= fields_view(fields).push(field_view(field)));
    }
    assert forall|parameters: Seq<Parameter>, parameter: Parameter| #[trigger]
        parameters_view(parameters.push(parameter)) == parameters_view(parameters).push(
            parameter_view(parameter),
        ) by {
        assert(parameters_view(parameters.push(parameter)) =~= parameters_view(parameters).push(
            parameter_view(parameter),
        ));
    }
    assert forall|statements: Seq<Box<Statement>>, statement: Box<Statement>| #[trigger]
        statements_view(statements.push(statement)) == statements_view(statements).push(
            statement_view(*statement),
        ) by {
        assert(statements_view(statements.push(statement)) =~= statements_view(statements).push(
            statement_view(*statement),
        ));
    }
    assert(types_view(Seq::empty()) =~= Seq::<TypeView>::empty());
    assert(fields_view(Seq::empty()) =~= Seq::<FieldView>::empty());
    assert(parameters_view(Seq::empty()) =~= Seq::<ParameterView>::empty());
    assert(statements_view(Seq::empty()) =~= Seq::<StatementView>::empty());
}

/// The values of a list of statements.
pub open spec fn statements_view(statements: Seq<Box<Statement>>) -> Seq<StatementView>
    decreases statements,
{
    Seq::new(
        statements.len(),
        |i: int|
            if 0 <= i < statements.len() {
                statement_view(*statements[i])
            } else {
                arbitrary()
            },
    )
}

} // verus!
