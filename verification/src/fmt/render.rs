//! The canonical text of a tree, as functions of the values of its nodes.
use vstd::prelude::*;

use crate::ast::{
    ExpressionKindView, ExpressionView, FieldView, FunctionTypeView, ParameterView,
    StatementKindView, StatementView, TypeView,
};

verus! {

/// The text `unit`, `n` times.
pub open spec fn repeat(unit: Seq<char>, n: nat) -> Seq<char>
    decreases n,
{
    if n == 0 {
        Seq::empty()
    } else {
        repeat(unit, (n - 1) as nat) + unit
    }
}

/// The first `n` of the texts `parts`, with `separator` between each two.
pub open spec fn join_first(parts: Seq<Seq<char>>, separator: Seq<char>, n: nat) -> Seq<char>
    decreases n,
{
    if n == 0 {
        Seq::empty()
    } else if n == 1 {
        parts[0]
    } else {
        join_first(parts, separator, (n - 1) as nat) + separator + parts[n - 1]
    }
}

/// The texts `parts`, with `separator` between each two.
pub open spec fn join(parts: Seq<Seq<char>>, separator: Seq<char>) -> Seq<char> {
    join_first(parts, separator, parts.len())
}

/// The level of indentation one deeper than `level`; the deepest level has none deeper.
pub open spec fn deeper(level: nat) -> nat {
    if level < usize::MAX {
        level + 1
    } else {
        level
    }
}

/// The text of an expression: a single space on each side of an operator between two
/// operands, none between an operator and the operand it stands before, and no parentheses.
pub open spec fn expression_text(expression: ExpressionView) -> Seq<char>
    decreases expression,
{
    match expression.kind {
        ExpressionKindView::Identifier(name) => name,
        ExpressionKindView::Boolean(value) => if value {
            "true"@
        } else {
            "false"@
        },
        ExpressionKindView::Integer(digits) => digits,
        ExpressionKindView::Float(digits) => digits,
        ExpressionKindView::String(contents) => "\""@ + contents + "\""@,
        ExpressionKindView::Prefix { operator, right } => operator.literal() + expression_text(
            *right,
        ),
        ExpressionKindView::Infix { left, operator, right } => expression_text(*left) + " "@
            + operator.literal() + " "@ + expression_text(*right),
    }
}

/// The text of a type.
pub open spec fn type_text(typ: TypeView) -> Seq<char>
    decreases typ,
{
    match typ {
        TypeView::Unknown => "UNKNOWN"@,
        TypeView::Name(name) => name,
        TypeView::Boolean => "bool"@,
        TypeView::Integer => "int"@,
        TypeView::Float => "float"@,
        TypeView::String => "string"@,
        TypeView::Tuple(elements) => "("@ + join(type_texts(elements), ", "@) + ")"@,
        TypeView::Struct(fields) => "{ "@ + join(field_texts(fields), ", "@) + " }"@,
        TypeView::Function(function) => function_type_text(function),
    }
}

/// The texts of a list of types.
pub open spec fn type_texts(types: Seq<TypeView>) -> Seq<Seq<char>>
    decreases types,
{
    Seq::new(
        types.len(),
        |i: int|
            if 0 <= i < types.len() {
                type_text(types[i])
            } else {
                Seq::empty()
            },
    )
}

/// The texts of a list of fields.
pub open spec fn field_texts(fields: Seq<FieldView>) -> Seq<Seq<char>>
    decreases fields,
{
    Seq::new(
        fields.len(),
        |i: int|
            if 0 <= i < fields.len() {
                field_text(fields[i])
            } else {
                Seq::empty()
            },
    )
}

/// The texts of a list of parameters.
pub open spec fn parameter_texts(parameters: Seq<ParameterView>) -> Seq<Seq<char>>
    decreases parameters, 0nat,
{
    Seq::new(
        parameters.len(),
        |i: int|
            if 0 <= i < parameters.len() {
                parameter_text(parameters[i])
            } else {
                Seq::empty()
            },
    )
}

/// The text of a field: its name, a colon, its type, and its default after ` = ` if it has one.
pub open spec fn field_text(field: FieldView) -> Seq<char>
    decreases field,
{
    field.name + ": "@ + type_text(field.typ) + match field.default {
        Some(value) => " = "@ + expression_text(value),
        None => Seq::empty(),
    }
}

/// The text of a parameter: its name, a colon and its type.
pub open spec fn parameter_text(parameter: ParameterView) -> Seq<char>
    decreases parameter,
{
    parameter.name + ": "@ + type_text(parameter.typ)
}

/// The text of a list of parameters, with `, ` between each two.
pub open spec fn parameters_text(parameters: Seq<ParameterView>) -> Seq<char>
    decreases parameters, 1nat,
{
    join(parameter_texts(parameters), ", "@)
}

/// The text of the type that a function returns, after a colon, if it is given.
pub open spec fn return_type_text(return_type: Option<Box<TypeView>>) -> Seq<char>
    decreases return_type,
{
    match return_type {
        Some(typ) => ": "@ + type_text(*typ),
        None => Seq::empty(),
    }
}

/// The text of a function type.
pub open spec fn function_type_text(function: FunctionTypeView) -> Seq<char>
    decreases function,
{
    "fn ("@ + parameters_text(function.parameters) + ")"@ + return_type_text(function.return_type)
}

/// What stands between a statement and the one after it: a space before a comment that
/// started on the line on which the statement ended; a blank line where the next statement
/// started two or more lines after the statement ended; a new line otherwise.
pub open spec fn gap(statement: StatementView, next: StatementView) -> Seq<char> {
    if next.kind is Comment && next.position.start.line == statement.position.end.line {
        " "@
    } else if next.position.start.line - statement.position.end.line >= 2 {
        "\n\n"@
    } else {
        "\n"@
    }
}

/// The first `n` of the statements, their texts being `parts`, each with the gap before it.
pub open spec fn laid_out(statements: Seq<StatementView>, parts: Seq<Seq<char>>, n: nat) -> Seq<
    char,
>
    decreases n,
{
    if n == 0 {
        Seq::empty()
    } else if n == 1 {
        parts[0]
    } else {
        laid_out(statements, parts, (n - 1) as nat) + gap(statements[n - 2], statements[n - 1])
            + parts[n - 1]
    }
}

/// The text of a statement at a level of indentation: the indentation, then the statement.
pub open spec fn statement_text(statement: StatementView, unit: Seq<char>, level: nat) -> Seq<
    char,
>
    decreases statement, 0nat,
{
    repeat(unit, level) + match statement.kind {
        StatementKindView::Comment { text, inline } => if inline {
            "//"@ + text
        } else {
            "/*"@ + text + "*/"@
        },
        StatementKindView::Declaration { name, mutable, value } => (if mutable {
            "mut "@
        } else {
            Seq::empty()
        }) + name + " := "@ + expression_text(value),
        StatementKindView::Assignment { name, value } => name + " = "@ + expression_text(value),
        StatementKindView::Block(statements) => block_text(statements, unit, level),
        StatementKindView::FunctionDeclaration { name, typ, body } => "fn "@ + name + "("@
            + parameters_text(typ.parameters) + ")"@ + return_type_text(typ.return_type) + " "@
            + block_text(body, unit, level),
        StatementKindView::Return(value) => "return "@ + expression_text(value),
        StatementKindView::Expression(value) => expression_text(value),
    }
}

/// The text of a block at a level of indentation: an opening brace, its statements one level
/// deeper on lines of their own, and the closing brace on a line of its own at the level of
/// the block.
pub open spec fn block_text(statements: Seq<StatementView>, unit: Seq<char>, level: nat) -> Seq<
    char,
>
    decreases statements, 2nat,
{
    "{\n"@ + statements_text(statements, unit, deeper(level)) + "\n"@ + repeat(unit, level)
        + "}"@
}

/// The text of a list of statements at a level of indentation.
pub open spec fn statements_text(
    statements: Seq<StatementView>,
    unit: Seq<char>,
    level: nat,
) -> Seq<char>
    decreases statements, 1nat,
{
    laid_out(statements, statement_texts(statements, unit, level), statements.len())
}

/// The texts of a list of statements at a level of indentation.
pub open spec fn statement_texts(
    statements: Seq<StatementView>,
    unit: Seq<char>,
    level: nat,
) -> Seq<Seq<char>>
    decreases statements, 0nat,
{
    Seq::new(
        statements.len(),
        |i: int|
            if 0 <= i < statements.len() {
                statement_text(statements[i], unit, level)
            } else {
                Seq::empty()
            },
    )
}

/// Two statements in a list are rendered with their gap between them: on one line where the
/// second is a comment that started on the line on which the first ended; with exactly one
/// blank line between them where the second started two or more lines after the first ended;
/// on two lines with nothing between them otherwise.
pub proof fn lemma_two_statements(
    first: StatementView,
    second: StatementView,
    unit: Seq<char>,
    level: nat,
)
    ensures
        statements_text(seq![first, second], unit, level) == statement_text(first, unit, level)
            + gap(first, second) + statement_text(second, unit, level),
        gap(first, second) == " "@ <==> second.kind is Comment && second.position.start.line
            == first.position.end.line,
        gap(first, second) == "\n\n"@ <==> !(second.kind is Comment
            && second.position.start.line == first.position.end.line)
            && second.position.start.line - first.position.end.line >= 2,
        gap(first, second) == " "@ || gap(first, second) == "\n\n"@ || gap(first, second)
            == "\n"@,
{
    reveal_strlit(" ");
    reveal_strlit("\n");
    reveal_strlit("\n\n");
    let list = seq![first, second];
    let parts = statement_texts(list, unit, level);
    assert(laid_out(list, parts, 2) == laid_out(list, parts, 1) + gap(list[0], list[1])
        + parts[1]);
    assert(" "@.len() == 1 && "\n"@.len() == 1 && "\n\n"@.len() == 2);
    assert(" "@[0] == ' ' && "\n"@[0] == '\n');
}

/// The text of a file: its statements, then a new line.
pub open spec fn file_text(statements: Seq<StatementView>, unit: Seq<char>, level: nat) -> Seq<
    char,
> {
    statements_text(statements, unit, level) + "\n"@
}

} // verus!
