//! What the nodes of a parsed file are like: the texts they carry are those of sound tokens.
use vstd::prelude::*;

use crate::ast::{
    ExpressionKindView, ExpressionView, FieldView, FunctionTypeView, ParameterView,
    StatementKindView, StatementView, TypeView,
};
use crate::lexer::sound::sound;
use crate::parser::grammar::{is_infix, named_type};
use crate::token::TokenView;

verus! {

/// Whether `name` is a name as the lexer gives it: the text of an identifier.
pub open spec fn sound_name(name: Seq<char>) -> bool {
    sound(TokenView::Identifier(name))
}

/// Whether an expression is sound: its names and literals are the texts of sound tokens, and its operators are operators.
pub open spec fn sound_expression(expression: ExpressionView) -> bool
    decreases expression,
{
    match expression.kind {
        ExpressionKindView::Identifier(name) => sound_name(name),
        ExpressionKindView::Boolean(_) => true,
        ExpressionKindView::Integer(digits) => sound(TokenView::Integer(digits)),
        ExpressionKindView::Float(digits) => sound(TokenView::Float(digits)),
        ExpressionKindView::String(contents) => sound(TokenView::String(contents)),
        ExpressionKindView::Prefix { operator, right } => (operator == TokenView::Minus
            || operator == TokenView::ExclamationMark) && sound_expression(*right),
        ExpressionKindView::Infix { left, operator, right } => is_infix(operator)
            && sound_expression(*left) && sound_expression(*right),
    }
}

/// Whether a type is sound: it is known, its names are the texts of sound tokens and none of
/// them is the name of a built-in type, and the defaults of its fields are sound.
pub open spec fn sound_type(typ: TypeView) -> bool
    decreases typ, 0nat,
{
    match typ {
        TypeView::Unknown => false,
        TypeView::Name(name) => sound_name(name) && named_type(name) == TypeView::Name(name),
        TypeView::Boolean => true,
        TypeView::Integer => true,
        TypeView::Float => true,
        TypeView::String => true,
        TypeView::Tuple(elements) => sound_types(elements, elements.len()),
        TypeView::Struct(fields) => sound_fields(fields, fields.len()),
        TypeView::Function(function) => sound_function_type(function),
    }
}

/// Whether the first `n` of the types are sound.
pub open spec fn sound_types(types: Seq<TypeView>, n: nat) -> bool
    decreases types, n,
{
    if n == 0 || n > types.len() {
        true
    } else {
        sound_types(types, (n - 1) as nat) && sound_type(types[n - 1])
    }
}

/// Whether the first `n` of the fields are sound.
pub open spec fn sound_fields(fields: Seq<FieldView>, n: nat) -> bool
    decreases fields, n,
{
    if n == 0 || n > fields.len() {
        true
    } else {
        sound_fields(fields, (n - 1) as nat) && sound_field(fields[n - 1])
    }
}

/// Whether the first `n` of the parameters are sound.
pub open spec fn sound_parameters(parameters: Seq<ParameterView>, n: nat) -> bool
    decreases parameters, n,
{
    if n == 0 || n > parameters.len() {
        true
    } else {
        sound_parameters(parameters, (n - 1) as nat) && sound_parameter(parameters[n - 1])
    }
}

/// Whether a field is sound: its names and literals are the texts of sound tokens, and its operators are operators.
pub open spec fn sound_field(field: FieldView) -> bool
    decreases field, 0nat,
{
    &&& sound_name(field.name)
    &&& sound_type(field.typ)
    &&& match field.default {
        Some(value) => sound_expression(value),
        None => true,
    }
}

/// Whether a parameter is sound: its names and literals are the texts of sound tokens, and its operators are operators.
pub open spec fn sound_parameter(parameter: ParameterView) -> bool
    decreases parameter, 0nat,
{
    sound_name(parameter.name) && sound_type(parameter.typ)
}

/// Whether a function type is sound: its names and literals are the texts of sound tokens, and its operators are operators.
pub open spec fn sound_function_type(function: FunctionTypeView) -> bool
    decreases function, 0nat,
{
    &&& sound_parameters(function.parameters, function.parameters.len())
    &&& match function.return_type {
        Some(typ) => sound_type(*typ),
        None => true,
    }
}

/// Whether a statement is sound: its names and literals are the texts of sound tokens, and its operators are operators.
pub open spec fn sound_statement(statement: StatementView) -> bool
    decreases statement, 0nat,
{
    match statement.kind {
        StatementKindView::Comment { text, inline } => if inline {
            sound(TokenView::LineComment(text))
        } else {
            sound(TokenView::BlockComment(text))
        },
        StatementKindView::Declaration { name, mutable, value } => sound_name(name)
            && sound_expression(value),
        StatementKindView::Assignment { name, value } => sound_name(name) && sound_expression(
            value,
        ),
        StatementKindView::Block(statements) => sound_statements(statements, statements.len()),
        StatementKindView::FunctionDeclaration { name, typ, body } => sound_name(name)
            && sound_function_type(typ) && sound_statements(body, body.len()),
        StatementKindView::Return(value) => sound_expression(value),
        StatementKindView::Expression(value) => sound_expression(value),
    }
}

/// Whether the first `n` of the statements are sound.
pub open spec fn sound_statements(statements: Seq<StatementView>, n: nat) -> bool
    decreases statements, n,
{
    if n == 0 || n > statements.len() {
        true
    } else {
        sound_statements(statements, (n - 1) as nat) && sound_statement(statements[n - 1])
    }
}

/// Whether no comment in the first `n` of the statements, or in a block among them, started on
/// the line on which the statement before it ended.
pub open spec fn tidy(statements: Seq<StatementView>, n: nat) -> bool
    decreases statements, n,
{
    if n == 0 || n > statements.len() {
        true
    } else {
        &&& tidy(statements, (n - 1) as nat)
        &&& n >= 2 ==> !(statements[n - 1].kind is Comment
            && statements[n - 1].position.start.line == statements[n - 2].position.end.line)
        &&& match statements[n - 1].kind {
            StatementKindView::Block(inner) => tidy(inner, inner.len()),
            StatementKindView::FunctionDeclaration { body, .. } => tidy(body, body.len()),
            _ => true,
        }
    }
}

/// The type at an index of a list of sound types is sound.
pub proof fn lemma_sound_types_at(types: Seq<TypeView>, n: nat, i: int)
    requires
        sound_types(types, n),
        0 <= i < n <= types.len(),
    ensures
        sound_type(types[i]),
    decreases n,
{
    if i < n - 1 {
        lemma_sound_types_at(types, (n - 1) as nat, i);
    }
}

/// The field at an index of a list of sound fields is sound.
pub proof fn lemma_sound_fields_at(fields: Seq<FieldView>, n: nat, i: int)
    requires
        sound_fields(fields, n),
        0 <= i < n <= fields.len(),
    ensures
        sound_field(fields[i]),
    decreases n,
{
    if i < n - 1 {
        lemma_sound_fields_at(fields, (n - 1) as nat, i);
    }
}

/// The parameter at an index of a list of sound parameters is sound.
pub proof fn lemma_sound_parameters_at(parameters: Seq<ParameterView>, n: nat, i: int)
    requires
        sound_parameters(parameters, n),
        0 <= i < n <= parameters.len(),
    ensures
        sound_parameter(parameters[i]),
    decreases n,
{
    if i < n - 1 {
        lemma_sound_parameters_at(parameters, (n - 1) as nat, i);
    }
}

/// The statement at an index of a list of sound statements is sound.
pub proof fn lemma_sound_statements_at(statements: Seq<StatementView>, n: nat, i: int)
    requires
        sound_statements(statements, n),
        0 <= i < n <= statements.len(),
    ensures
        sound_statement(statements[i]),
    decreases n,
{
    if i < n - 1 {
        lemma_sound_statements_at(statements, (n - 1) as nat, i);
    }
}

/// Whether a type is written in full by its text: no field in it has a default, whose place
/// in a source no text holds.
pub open spec fn plain_type(typ: TypeView) -> bool
    decreases typ, 0nat,
{
    match typ {
        TypeView::Tuple(elements) => plain_types(elements, elements.len()),
        TypeView::Struct(fields) => plain_fields(fields, fields.len()),
        TypeView::Function(function) => plain_function_type(function),
        _ => true,
    }
}

/// Whether a field is written in full by its text: it has no default, and so is its type.
pub open spec fn plain_field(field: FieldView) -> bool
    decreases field, 0nat,
{
    field.default.is_none() && plain_type(field.typ)
}

/// Whether a parameter is written in full by its text: its type is.
pub open spec fn plain_parameter(parameter: ParameterView) -> bool
    decreases parameter, 0nat,
{
    plain_type(parameter.typ)
}

/// Whether a function type is written in full by its text: its parameters are, and so is the
/// type it returns.
pub open spec fn plain_function_type(function: FunctionTypeView) -> bool
    decreases function, 0nat,
{
    &&& plain_parameters(function.parameters, function.parameters.len())
    &&& match function.return_type {
        Some(typ) => plain_type(*typ),
        None => true,
    }
}

/// Whether the first `n` of the types are written in full by their texts.
pub open spec fn plain_types(types: Seq<TypeView>, n: nat) -> bool
    decreases types, n,
{
    if n == 0 || n > types.len() {
        true
    } else {
        plain_types(types, (n - 1) as nat) && plain_type(types[n - 1])
    }
}

/// The one at an index of a list of types that are written in full is written in full.
pub proof fn lemma_plain_types_at(types: Seq<TypeView>, n: nat, i: int)
    requires
        plain_types(types, n),
        0 <= i < n <= types.len(),
    ensures
        plain_type(types[i]),
    decreases n,
{
    if i < n - 1 {
        lemma_plain_types_at(types, (n - 1) as nat, i);
    }
}

/// Whether the first `n` of the fields are written in full by their texts.
pub open spec fn plain_fields(fields: Seq<FieldView>, n: nat) -> bool
    decreases fields, n,
{
    if n == 0 || n > fields.len() {
        true
    } else {
        plain_fields(fields, (n - 1) as nat) && plain_field(fields[n - 1])
    }
}

/// The one at an index of a list of fields that are written in full is written in full.
pub proof fn lemma_plain_fields_at(fields: Seq<FieldView>, n: nat, i: int)
    requires
        plain_fields(fields, n),
        0 <= i < n <= fields.len(),
    ensures
        plain_field(fields[i]),
    decreases n,
{
    if i < n - 1 {
        lemma_plain_fields_at(fields, (n - 1) as nat, i);
    }
}

/// Whether the first `n` of the parameters are written in full by their texts.
pub open spec fn plain_parameters(parameters: Seq<ParameterView>, n: nat) -> bool
    decreases parameters, n,
{
    if n == 0 || n > parameters.len() {
        true
    } else {
        plain_parameters(parameters, (n - 1) as nat) && plain_parameter(parameters[n - 1])
    }
}

/// The one at an index of a list of parameters that are written in full is written in full.
pub proof fn lemma_plain_parameters_at(parameters: Seq<ParameterView>, n: nat, i: int)
    requires
        plain_parameters(parameters, n),
        0 <= i < n <= parameters.len(),
    ensures
        plain_parameter(parameters[i]),
    decreases n,
{
    if i < n - 1 {
        lemma_plain_parameters_at(parameters, (n - 1) as nat, i);
    }
}

} // verus!
