//! The tokens that the text of a node is written with, each with the whitespace before it.
use vstd::prelude::*;

use crate::ast::{
    ExpressionKindView, ExpressionView, FieldView, FunctionTypeView, ParameterView,
    StatementKindView, StatementView, TypeView,
};
use crate::fmt::render::{deeper, gap, repeat};
use crate::lexer::reread::Item;
use crate::token::TokenView;

verus! {

/// One token after the whitespace `white`.
pub open spec fn one(white: Seq<char>, token: TokenView) -> Seq<Item> {
    seq![Item { white, token }]
}

/// The items of an expression, the first after the whitespace `lead`.
pub open spec fn expression_items(expression: ExpressionView, lead: Seq<char>) -> Seq<Item>
    decreases expression,
{
    match expression.kind {
        ExpressionKindView::Identifier(name) => one(lead, TokenView::Identifier(name)),
        ExpressionKindView::Boolean(value) => one(
            lead,
            if value {
                TokenView::True
            } else {
                TokenView::False
            },
        ),
        ExpressionKindView::Integer(digits) => one(lead, TokenView::Integer(digits)),
        ExpressionKindView::Float(digits) => one(lead, TokenView::Float(digits)),
        ExpressionKindView::String(contents) => one(lead, TokenView::String(contents)),
        ExpressionKindView::Prefix { operator, right } => one(lead, operator) + expression_items(
            *right,
            Seq::empty(),
        ),
        ExpressionKindView::Infix { left, operator, right } => expression_items(*left, lead) + one(
            " "@,
            operator,
        ) + expression_items(*right, " "@),
    }
}

/// The items of a type, the first after the whitespace `lead`.
pub open spec fn type_items(typ: TypeView, lead: Seq<char>) -> Seq<Item>
    decreases typ, 0nat,
{
    match typ {
        TypeView::Unknown => one(lead, TokenView::Identifier("UNKNOWN"@)),
        TypeView::Name(name) => one(lead, TokenView::Identifier(name)),
        TypeView::Boolean => one(lead, TokenView::Identifier("bool"@)),
        TypeView::Integer => one(lead, TokenView::Identifier("int"@)),
        TypeView::Float => one(lead, TokenView::Identifier("float"@)),
        TypeView::String => one(lead, TokenView::Identifier("string"@)),
        TypeView::Tuple(elements) => one(lead, TokenView::LeftParenthesis) + listed_types(
            elements,
            elements.len(),
        ) + one(Seq::empty(), TokenView::RightParenthesis),
        TypeView::Struct(fields) => one(lead, TokenView::LeftBrace) + listed_fields(
            fields,
            fields.len(),
        ) + one(
            if fields.len() == 0 {
                " "@ + " "@
            } else {
                " "@
            },
            TokenView::RightBrace,
        ),
        TypeView::Function(function) => one(lead, TokenView::Function) + signature_items(
            function,
            " "@,
        ),
    }
}

/// The items of the first `n` of the element types of a tuple type.
pub open spec fn listed_types(types: Seq<TypeView>, n: nat) -> Seq<Item>
    decreases types, n,
{
    if n == 0 || n > types.len() {
        Seq::empty()
    } else if n == 1 {
        type_items(types[0], Seq::empty())
    } else {
        listed_types(types, (n - 1) as nat) + one(Seq::empty(), TokenView::Comma) + type_items(
            types[n - 1],
            " "@,
        )
    }
}

/// The items of the first `n` of the fields of a struct type.
pub open spec fn listed_fields(fields: Seq<FieldView>, n: nat) -> Seq<Item>
    decreases fields, n,
{
    if n == 0 || n > fields.len() {
        Seq::empty()
    } else if n == 1 {
        field_items(fields[0], " "@)
    } else {
        listed_fields(fields, (n - 1) as nat) + one(Seq::empty(), TokenView::Comma) + field_items(
            fields[n - 1],
            " "@,
        )
    }
}

/// The items of the first `n` of the parameters of a function.
pub open spec fn listed_parameters(parameters: Seq<ParameterView>, n: nat) -> Seq<Item>
    decreases parameters, n,
{
    if n == 0 || n > parameters.len() {
        Seq::empty()
    } else if n == 1 {
        parameter_items(parameters[0], Seq::empty())
    } else {
        listed_parameters(parameters, (n - 1) as nat) + one(Seq::empty(), TokenView::Comma)
            + parameter_items(parameters[n - 1], " "@)
    }
}

/// The items of a field, the first after the whitespace `lead`.
pub open spec fn field_items(field: FieldView, lead: Seq<char>) -> Seq<Item>
    decreases field, 0nat,
{
    one(lead, TokenView::Identifier(field.name)) + one(Seq::empty(), TokenView::Colon)
        + type_items(field.typ, " "@) + match field.default {
        Some(value) => one(" "@, TokenView::Assign) + expression_items(value, " "@),
        None => Seq::empty(),
    }
}

/// The items of a parameter, the first after the whitespace `lead`.
pub open spec fn parameter_items(parameter: ParameterView, lead: Seq<char>) -> Seq<Item>
    decreases parameter, 0nat,
{
    one(lead, TokenView::Identifier(parameter.name)) + one(Seq::empty(), TokenView::Colon)
        + type_items(parameter.typ, " "@)
}

/// The items of the type that a function returns, if it is given.
pub open spec fn return_type_items(return_type: Option<Box<TypeView>>) -> Seq<Item>
    decreases return_type, 0nat,
{
    match return_type {
        Some(typ) => one(Seq::empty(), TokenView::Colon) + type_items(*typ, " "@),
        None => Seq::empty(),
    }
}

/// The items of what follows the name in a function's head, the opening parenthesis after the
/// whitespace `lead`.
pub open spec fn signature_items(function: FunctionTypeView, lead: Seq<char>) -> Seq<Item>
    decreases function, 0nat,
{
    one(lead, TokenView::LeftParenthesis) + listed_parameters(
        function.parameters,
        function.parameters.len(),
    ) + one(Seq::empty(), TokenView::RightParenthesis) + return_type_items(function.return_type)
}

/// The indentation of a level: two spaces for each.
pub open spec fn indent(level: nat) -> Seq<char> {
    repeat("  "@, level)
}

/// The items of a statement at a level of indentation, the first after the whitespace `lead`.
pub open spec fn statement_items(statement: StatementView, lead: Seq<char>, level: nat) -> Seq<
    Item,
>
    decreases statement, 0nat,
{
    match statement.kind {
        StatementKindView::Comment { text, inline } => one(
            lead,
            if inline {
                TokenView::LineComment(text)
            } else {
                TokenView::BlockComment(text)
            },
        ),
        StatementKindView::Declaration { name, mutable, value } => (if mutable {
            one(lead, TokenView::Mutable) + one(" "@, TokenView::Identifier(name))
        } else {
            one(lead, TokenView::Identifier(name))
        }) + one(" "@, TokenView::Declare) + expression_items(value, " "@),
        StatementKindView::Assignment { name, value } => one(lead, TokenView::Identifier(name))
            + one(" "@, TokenView::Assign) + expression_items(value, " "@),
        StatementKindView::Block(statements) => block_items(statements, lead, level),
        StatementKindView::FunctionDeclaration { name, typ, body } => one(
            lead,
            TokenView::Function,
        ) + one(" "@, TokenView::Identifier(name)) + signature_items(typ, Seq::empty())
            + block_items(body, " "@, level),
        StatementKindView::Return(value) => one(lead, TokenView::Return) + expression_items(
            value,
            " "@,
        ),
        StatementKindView::Expression(value) => expression_items(value, lead),
    }
}

/// The whitespace before the closing brace of a block of `n` statements at a level of
/// indentation: a new line after the last statement, or the two new lines of an empty block,
/// and the indentation of the block.
pub open spec fn closing_lead(n: nat, level: nat) -> Seq<char> {
    (if n == 0 {
        "\n"@ + "\n"@
    } else {
        "\n"@
    }) + indent(level)
}

/// The items of a block at a level of indentation, its opening brace after the whitespace
/// `lead`.
pub open spec fn block_items(statements: Seq<StatementView>, lead: Seq<char>, level: nat) -> Seq<
    Item,
>
    decreases statements, statements.len() + 1,
{
    one(lead, TokenView::LeftBrace) + listed_statements(
        statements,
        statements.len(),
        "\n"@,
        deeper(level),
    ) + one(closing_lead(statements.len(), level), TokenView::RightBrace)
}

/// The whitespace before the statement at index `i` of a list at a level of indentation, the
/// first of which stands after the whitespace `before`: the gap and the indentation.
pub open spec fn lead_of(statements: Seq<StatementView>, i: int, before: Seq<char>, level: nat) -> Seq<
    char,
> {
    (if i == 0 {
        before
    } else {
        gap(statements[i - 1], statements[i])
    }) + indent(level)
}

/// The items of the first `n` of the statements of a list at a level of indentation, the first
/// after the whitespace `before` and the indentation.
pub open spec fn listed_statements(
    statements: Seq<StatementView>,
    n: nat,
    before: Seq<char>,
    level: nat,
) -> Seq<Item>
    decreases statements, n,
{
    if n == 0 || n > statements.len() {
        Seq::empty()
    } else {
        listed_statements(statements, (n - 1) as nat, before, level) + statement_items(
            statements[n - 1],
            lead_of(statements, n - 1, before, level),
            level,
        )
    }
}

/// The items of a file.
pub open spec fn file_items(statements: Seq<StatementView>) -> Seq<Item> {
    listed_statements(statements, statements.len(), Seq::empty(), 0)
}

/// Whether the items `written` stand among the items `items` from index `k` on.
pub open spec fn holds_at(items: Seq<Item>, k: int, written: Seq<Item>) -> bool {
    &&& 0 <= k
    &&& k + written.len() <= items.len()
    &&& items.subrange(k, k + written.len()) == written
}

/// Where two lists of items stand one after the other, each of them stands.
pub proof fn lemma_holds_split(items: Seq<Item>, k: int, a: Seq<Item>, b: Seq<Item>)
    requires
        holds_at(items, k, a + b),
    ensures
        holds_at(items, k, a),
        holds_at(items, k + a.len(), b),
{
    let whole = a + b;
    assert forall|u: int| 0 <= u < a.len() implies items[k + u] == a[u] by {
        assert(items.subrange(k, k + whole.len())[u] == whole[u]);
    }
    assert forall|u: int| 0 <= u < b.len() implies items[k + a.len() + u] == b[u] by {
        assert(items.subrange(k, k + whole.len())[a.len() + u] == whole[a.len() + u]);
    }
    assert(items.subrange(k, k + a.len()) =~= a);
    assert(items.subrange(k + a.len(), k + a.len() + b.len()) =~= b);
}

/// Where one item stands, it is the item at that index.
pub proof fn lemma_holds_one(items: Seq<Item>, k: int, white: Seq<char>, token: TokenView)
    requires
        holds_at(items, k, one(white, token)),
    ensures
        0 <= k < items.len(),
        items[k].white == white,
        items[k].token == token,
{
    assert(items.subrange(k, k + 1)[0] == one(white, token)[0]);
}

} // verus!
