//! The text of a node is its items, written one after the other.
use vstd::prelude::*;

use crate::ast::{
    ExpressionKindView, ExpressionView, FieldView, FunctionTypeView, ParameterView,
    StatementKindView, StatementView, TypeView,
};
use crate::fmt::render::{
    block_text, deeper, expression_text, field_text, field_texts, file_text, function_type_text,
    gap, join, join_first, laid_out, parameter_text, parameter_texts, parameters_text,
    return_type_text, statement_text, statement_texts, statements_text, type_text, type_texts,
};
use crate::lexer::laws::lemma_literals;
use crate::lexer::reread::{emit, lemma_keywords, Item};
use crate::roundtrip::items::{
    block_items, closing_lead, expression_items, field_items, file_items, indent, listed_fields,
    listed_parameters, listed_statements, listed_types, one, parameter_items, return_type_items,
    signature_items, statement_items, type_items,
};
use crate::token::TokenView;

verus! {

/// The characters of the texts that the formatter writes between tokens.
pub proof fn lemma_spacing()
    ensures
        " "@ == seq![' '],
        ", "@ == ","@ + " "@,
        ": "@ == ":"@ + " "@,
        "{ "@ == "{"@ + " "@,
        " }"@ == " "@ + "}"@,
        " = "@ == " "@ + "="@ + " "@,
        " := "@ == " "@ + ":="@ + " "@,
        "fn ("@ == "fn"@ + " "@ + "("@,
        "fn "@ == "fn"@ + " "@,
        "mut "@ == "mut"@ + " "@,
        "return "@ == "return"@ + " "@,
        "{\n"@ == "{"@ + "\n"@,
        "\n}"@ == "\n"@ + "}"@,
        "\n"@ == seq!['\n'],
        "\n\n"@ == seq!['\n', '\n'],
        "  "@ == seq![' ', ' '],
{
    lemma_literals();
    lemma_keywords();
    reveal_strlit(" ");
    reveal_strlit(", ");
    reveal_strlit(": ");
    reveal_strlit("{ ");
    reveal_strlit(" }");
    reveal_strlit(" = ");
    reveal_strlit(" := ");
    reveal_strlit("fn (");
    reveal_strlit("fn ");
    reveal_strlit("mut ");
    reveal_strlit("return ");
    reveal_strlit("{\n");
    reveal_strlit("\n}");
    reveal_strlit("\n");
    reveal_strlit("\n\n");
    reveal_strlit("  ");
    assert(" "@ =~= seq![' ']);
    assert(", "@ =~= ","@ + " "@);
    assert(": "@ =~= ":"@ + " "@);
    assert("{ "@ =~= "{"@ + " "@);
    assert(" }"@ =~= " "@ + "}"@);
    assert(" = "@ =~= " "@ + "="@ + " "@);
    assert(" := "@ =~= " "@ + ":="@ + " "@);
    assert("fn ("@ =~= "fn"@ + " "@ + "("@);
    assert("fn "@ =~= "fn"@ + " "@);
    assert("mut "@ =~= "mut"@ + " "@);
    assert("return "@ =~= "return"@ + " "@);
    assert("{\n"@ =~= "{"@ + "\n"@);
    assert("\n}"@ =~= "\n"@ + "}"@);
    assert("\n"@ =~= seq!['\n']);
    assert("\n\n"@ =~= seq!['\n', '\n']);
    assert("  "@ =~= seq![' ', ' ']);
}

/// One item is written as its whitespace and its token.
pub proof fn lemma_emit_one(white: Seq<char>, token: TokenView)
    ensures
        emit(one(white, token)) == white + token.literal(),
{
    let items = one(white, token);
    assert(items.drop_first() =~= Seq::<Item>::empty());
    assert(emit(items.drop_first()) =~= Seq::<char>::empty());
    assert(emit(items) =~= white + token.literal());
}

/// Two lists of items, one after the other, are written as the one, then the other.
pub proof fn lemma_emit_concat(a: Seq<Item>, b: Seq<Item>)
    ensures
        emit(a + b) == emit(a) + emit(b),
    decreases a.len(),
{
    if a.len() == 0 {
        assert(a + b =~= b);
        assert(emit(a) + emit(b) =~= emit(b));
    } else {
        lemma_emit_concat(a.drop_first(), b);
        assert((a + b).drop_first() =~= a.drop_first() + b);
        assert((a + b)[0] == a[0]);
        assert(emit(a + b) =~= emit(a) + emit(b));
    }
}

/// An expression is written as its text.
pub proof fn lemma_expression_emits(expression: ExpressionView, lead: Seq<char>)
    ensures
        emit(expression_items(expression, lead)) == lead + expression_text(expression),
    decreases expression,
{
    lemma_spacing();
    lemma_literals();
    lemma_keywords();
    let none = Seq::<char>::empty();
    match expression.kind {
        ExpressionKindView::Identifier(name) => {
            lemma_emit_one(lead, TokenView::Identifier(name));
        },
        ExpressionKindView::Boolean(value) => {
            lemma_emit_one(lead, TokenView::True);
            lemma_emit_one(lead, TokenView::False);
        },
        ExpressionKindView::Integer(digits) => {
            lemma_emit_one(lead, TokenView::Integer(digits));
        },
        ExpressionKindView::Float(digits) => {
            lemma_emit_one(lead, TokenView::Float(digits));
        },
        ExpressionKindView::String(contents) => {
            lemma_emit_one(lead, TokenView::String(contents));
            assert(lead + ("\""@ + contents + "\""@) =~= lead + expression_text(expression));
        },
        ExpressionKindView::Prefix { operator, right } => {
            lemma_emit_one(lead, operator);
            lemma_expression_emits(*right, none);
            lemma_emit_concat(one(lead, operator), expression_items(*right, none));
            assert(lead + operator.literal() + (none + expression_text(*right)) =~= lead
                + expression_text(expression));
        },
        ExpressionKindView::Infix { left, operator, right } => {
            lemma_expression_emits(*left, lead);
            lemma_emit_one(" "@, operator);
            lemma_expression_emits(*right, " "@);
            lemma_emit_concat(expression_items(*left, lead), one(" "@, operator));
            lemma_emit_concat(
                expression_items(*left, lead) + one(" "@, operator),
                expression_items(*right, " "@),
            );
            assert(lead + expression_text(*left) + (" "@ + operator.literal()) + (" "@
                + expression_text(*right)) =~= lead + expression_text(expression));
        },
    }
}

/// A type is written as its text.
#[verifier::rlimit(60)]
pub proof fn lemma_type_emits(typ: TypeView, lead: Seq<char>)
    ensures
        emit(type_items(typ, lead)) == lead + type_text(typ),
    decreases typ, 0nat,
{
    lemma_spacing();
    lemma_literals();
    lemma_keywords();
    let none = Seq::<char>::empty();
    match typ {
        TypeView::Unknown => {
            lemma_emit_one(lead, TokenView::Identifier("UNKNOWN"@));
        },
        TypeView::Name(name) => {
            lemma_emit_one(lead, TokenView::Identifier(name));
        },
        TypeView::Boolean => {
            lemma_emit_one(lead, TokenView::Identifier("bool"@));
        },
        TypeView::Integer => {
            lemma_emit_one(lead, TokenView::Identifier("int"@));
        },
        TypeView::Float => {
            lemma_emit_one(lead, TokenView::Identifier("float"@));
        },
        TypeView::String => {
            lemma_emit_one(lead, TokenView::Identifier("string"@));
        },
        TypeView::Tuple(elements) => {
            let open = one(lead, TokenView::LeftParenthesis);
            let list = listed_types(elements, elements.len());
            let close = one(none, TokenView::RightParenthesis);
            lemma_emit_one(lead, TokenView::LeftParenthesis);
            lemma_emit_one(none, TokenView::RightParenthesis);
            lemma_types_emit(elements, elements.len());
            lemma_emit_concat(open, list);
            lemma_emit_concat(open + list, close);
            assert(lead + "("@ + join(type_texts(elements), ", "@) + (none + ")"@) =~= lead
                + type_text(typ));
        },
        TypeView::Struct(fields) => {
            let white = if fields.len() == 0 {
                " "@ + " "@
            } else {
                " "@
            };
            let open = one(lead, TokenView::LeftBrace);
            let list = listed_fields(fields, fields.len());
            let close = one(white, TokenView::RightBrace);
            lemma_emit_one(lead, TokenView::LeftBrace);
            lemma_emit_one(white, TokenView::RightBrace);
            lemma_fields_emit(fields, fields.len());
            lemma_emit_concat(open, list);
            lemma_emit_concat(open + list, close);
            if fields.len() == 0 {
                assert(lead + "{"@ + none + (" "@ + " "@ + "}"@) =~= lead + ("{ "@ + none
                    + " }"@));
            } else {
                assert(lead + "{"@ + (" "@ + join(field_texts(fields), ", "@)) + (" "@ + "}"@)
                    =~= lead + ("{ "@ + join(field_texts(fields), ", "@) + " }"@));
            }
        },
        TypeView::Function(function) => {
            lemma_emit_one(lead, TokenView::Function);
            lemma_signature_emits(function, " "@);
            lemma_emit_concat(one(lead, TokenView::Function), signature_items(function, " "@));
            assert(lead + "fn"@ + (" "@ + "("@ + parameters_text(function.parameters) + ")"@
                + return_type_text(function.return_type)) =~= lead + function_type_text(
                function,
            ));
        },
    }
}

/// The first `n` element types of a tuple type are written as their texts, with `, ` between
/// each two.
pub proof fn lemma_types_emit(types: Seq<TypeView>, n: nat)
    requires
        n <= types.len(),
    ensures
        emit(listed_types(types, n)) == join_first(type_texts(types), ", "@, n),
    decreases types, n,
{
    lemma_spacing();
    lemma_literals();
    let none = Seq::<char>::empty();
    if n == 0 {
    } else if n == 1 {
        lemma_type_emits(types[0], none);
        assert(none + type_text(types[0]) =~= type_text(types[0]));
    } else {
        let before = listed_types(types, (n - 1) as nat);
        let comma = one(none, TokenView::Comma);
        let last = type_items(types[n - 1], " "@);
        lemma_types_emit(types, (n - 1) as nat);
        lemma_emit_one(none, TokenView::Comma);
        lemma_type_emits(types[n - 1], " "@);
        lemma_emit_concat(before, comma);
        lemma_emit_concat(before + comma, last);
        assert(emit(before) + (none + ","@) + (" "@ + type_text(types[n - 1])) =~= emit(before)
            + ", "@ + type_text(types[n - 1]));
    }
}

/// The first `n` fields of a struct type are written as their texts, with `, ` between each
/// two, after a space.
pub proof fn lemma_fields_emit(fields: Seq<FieldView>, n: nat)
    requires
        n <= fields.len(),
    ensures
        emit(listed_fields(fields, n)) == if n == 0 {
            Seq::<char>::empty()
        } else {
            " "@ + join_first(field_texts(fields), ", "@, n)
        },
    decreases fields, n,
{
    lemma_spacing();
    lemma_literals();
    let none = Seq::<char>::empty();
    if n == 0 {
    } else if n == 1 {
        lemma_field_emits(fields[0], " "@);
    } else {
        let before = listed_fields(fields, (n - 1) as nat);
        let comma = one(none, TokenView::Comma);
        let last = field_items(fields[n - 1], " "@);
        lemma_fields_emit(fields, (n - 1) as nat);
        lemma_emit_one(none, TokenView::Comma);
        lemma_field_emits(fields[n - 1], " "@);
        lemma_emit_concat(before, comma);
        lemma_emit_concat(before + comma, last);
        assert(emit(before) + (none + ","@) + (" "@ + field_text(fields[n - 1])) =~= " "@ + (
        join_first(field_texts(fields), ", "@, (n - 1) as nat) + ", "@ + field_text(
            fields[n - 1],
        )));
    }
}

/// The first `n` parameters of a function are written as their texts, with `, ` between each
/// two.
pub proof fn lemma_parameters_emit(parameters: Seq<ParameterView>, n: nat)
    requires
        n <= parameters.len(),
    ensures
        emit(listed_parameters(parameters, n)) == join_first(
            parameter_texts(parameters),
            ", "@,
            n,
        ),
    decreases parameters, n,
{
    lemma_spacing();
    lemma_literals();
    let none = Seq::<char>::empty();
    if n == 0 {
    } else if n == 1 {
        lemma_parameter_emits(parameters[0], none);
        assert(none + parameter_text(parameters[0]) =~= parameter_text(parameters[0]));
    } else {
        let before = listed_parameters(parameters, (n - 1) as nat);
        let comma = one(none, TokenView::Comma);
        let last = parameter_items(parameters[n - 1], " "@);
        lemma_parameters_emit(parameters, (n - 1) as nat);
        lemma_emit_one(none, TokenView::Comma);
        lemma_parameter_emits(parameters[n - 1], " "@);
        lemma_emit_concat(before, comma);
        lemma_emit_concat(before + comma, last);
        assert(emit(before) + (none + ","@) + (" "@ + parameter_text(parameters[n - 1]))
            =~= emit(before) + ", "@ + parameter_text(parameters[n - 1]));
    }
}

/// A field is written as its text.
#[verifier::rlimit(60)]
pub proof fn lemma_field_emits(field: FieldView, lead: Seq<char>)
    ensures
        emit(field_items(field, lead)) == lead + field_text(field),
    decreases field, 0nat,
{
    lemma_spacing();
    lemma_literals();
    let none = Seq::<char>::empty();
    let name = one(lead, TokenView::Identifier(field.name));
    let colon = one(none, TokenView::Colon);
    let typ = type_items(field.typ, " "@);
    lemma_emit_one(lead, TokenView::Identifier(field.name));
    lemma_emit_one(none, TokenView::Colon);
    lemma_type_emits(field.typ, " "@);
    lemma_emit_concat(name, colon);
    lemma_emit_concat(name + colon, typ);
    match field.default {
        Some(value) => {
            let assign = one(" "@, TokenView::Assign);
            let default = expression_items(value, " "@);
            lemma_emit_one(" "@, TokenView::Assign);
            lemma_expression_emits(value, " "@);
            lemma_emit_concat(assign, default);
            lemma_emit_concat(name + colon + typ, assign + default);
            assert(lead + field.name + (none + ":"@) + (" "@ + type_text(field.typ)) + (" "@
                + "="@ + (" "@ + expression_text(value))) =~= lead + field_text(field));
        },
        None => {
            assert(name + colon + typ + Seq::<Item>::empty() =~= name + colon + typ);
            assert(lead + field.name + (none + ":"@) + (" "@ + type_text(field.typ)) =~= lead
                + field_text(field));
        },
    }
}

/// A parameter is written as its text.
pub proof fn lemma_parameter_emits(parameter: ParameterView, lead: Seq<char>)
    ensures
        emit(parameter_items(parameter, lead)) == lead + parameter_text(parameter),
    decreases parameter, 0nat,
{
    lemma_spacing();
    lemma_literals();
    let none = Seq::<char>::empty();
    let name = one(lead, TokenView::Identifier(parameter.name));
    let colon = one(none, TokenView::Colon);
    let typ = type_items(parameter.typ, " "@);
    lemma_emit_one(lead, TokenView::Identifier(parameter.name));
    lemma_emit_one(none, TokenView::Colon);
    lemma_type_emits(parameter.typ, " "@);
    lemma_emit_concat(name, colon);
    lemma_emit_concat(name + colon, typ);
    assert(lead + parameter.name + (none + ":"@) + (" "@ + type_text(parameter.typ)) =~= lead
        + parameter_text(parameter));
}

/// The type that a function returns is written as its text.
pub proof fn lemma_return_type_emits(return_type: Option<Box<TypeView>>)
    ensures
        emit(return_type_items(return_type)) == return_type_text(return_type),
    decreases return_type, 0nat,
{
    lemma_spacing();
    lemma_literals();
    let none = Seq::<char>::empty();
    match return_type {
        Some(typ) => {
            lemma_emit_one(none, TokenView::Colon);
            lemma_type_emits(*typ, " "@);
            lemma_emit_concat(one(none, TokenView::Colon), type_items(*typ, " "@));
            assert(none + ":"@ + (" "@ + type_text(*typ)) =~= ": "@ + type_text(*typ));
        },
        None => {},
    }
}

/// What follows the name in a function's head is written as its text.
#[verifier::rlimit(60)]
pub proof fn lemma_signature_emits(function: FunctionTypeView, lead: Seq<char>)
    ensures
        emit(signature_items(function, lead)) == lead + "("@ + parameters_text(
            function.parameters,
        ) + ")"@ + return_type_text(function.return_type),
    decreases function, 0nat,
{
    lemma_spacing();
    lemma_literals();
    let none = Seq::<char>::empty();
    let open = one(lead, TokenView::LeftParenthesis);
    let list = listed_parameters(function.parameters, function.parameters.len());
    let close = one(none, TokenView::RightParenthesis);
    let returned = return_type_items(function.return_type);
    lemma_emit_one(lead, TokenView::LeftParenthesis);
    lemma_emit_one(none, TokenView::RightParenthesis);
    lemma_parameters_emit(function.parameters, function.parameters.len());
    lemma_return_type_emits(function.return_type);
    lemma_emit_concat(open, list);
    lemma_emit_concat(open + list, close);
    lemma_emit_concat(open + list + close, returned);
    assert(lead + "("@ + parameters_text(function.parameters) + (none + ")"@)
        + return_type_text(function.return_type) =~= lead + "("@ + parameters_text(
        function.parameters,
    ) + ")"@ + return_type_text(function.return_type));
}

/// A comment is written as its text.
proof fn lemma_comment_emits(statement: StatementView, before: Seq<char>, level: nat)
    requires
        statement.kind is Comment,
    ensures
        emit(statement_items(statement, before + indent(level), level)) == before
            + statement_text(statement, "  "@, level),
{
    let lead = before + indent(level);
    let text = statement.kind->Comment_text;
    lemma_emit_one(lead, TokenView::LineComment(text));
    lemma_emit_one(lead, TokenView::BlockComment(text));
    if statement.kind->Comment_inline {
        assert(lead + ("//"@ + text) =~= before + (indent(level) + ("//"@ + text)));
    } else {
        assert(lead + ("/*"@ + text + "*/"@) =~= before + (indent(level) + ("/*"@ + text
            + "*/"@)));
    }
}

/// A declaration is written as its text.
#[verifier::rlimit(60)]
proof fn lemma_declaration_emits(statement: StatementView, before: Seq<char>, level: nat)
    requires
        statement.kind is Declaration,
    ensures
        emit(statement_items(statement, before + indent(level), level)) == before
            + statement_text(statement, "  "@, level),
{
    lemma_spacing();
    let none = Seq::<char>::empty();
    let lead = before + indent(level);
    let name = statement.kind->Declaration_name;
    let mutable = statement.kind->Declaration_mutable;
    let value = statement.kind->Declaration_value;
    let head = if mutable {
        one(lead, TokenView::Mutable) + one(" "@, TokenView::Identifier(name))
    } else {
        one(lead, TokenView::Identifier(name))
    };
    let declare = one(" "@, TokenView::Declare);
    let tail = expression_items(value, " "@);
    lemma_emit_one(lead, TokenView::Mutable);
    lemma_emit_one(" "@, TokenView::Identifier(name));
    lemma_emit_one(lead, TokenView::Identifier(name));
    lemma_emit_one(" "@, TokenView::Declare);
    lemma_expression_emits(value, " "@);
    lemma_emit_concat(one(lead, TokenView::Mutable), one(" "@, TokenView::Identifier(name)));
    lemma_emit_concat(head, declare);
    lemma_emit_concat(head + declare, tail);
    let written = expression_text(value);
    if mutable {
        lemma_declaration_text(before, indent(level), "mut"@ + " "@, name, written);
        assert(lead + "mut"@ + (" "@ + name) =~= before + indent(level) + ("mut"@ + " "@)
            + name);
    } else {
        lemma_declaration_text(before, indent(level), none, name, written);
        assert(lead + name =~= before + indent(level) + none + name);
    }
}

/// The text of a declaration, in parts.
proof fn lemma_declaration_text(
    before: Seq<char>,
    indentation: Seq<char>,
    keyword: Seq<char>,
    name: Seq<char>,
    value: Seq<char>,
)
    ensures
        before + indentation + keyword + name + (" "@ + ":="@) + (" "@ + value) == before + (
        indentation + (keyword + name + (" "@ + ":="@ + " "@) + value)),
{
    assert(before + indentation + keyword + name + (" "@ + ":="@) + (" "@ + value) =~= before
        + (indentation + (keyword + name + (" "@ + ":="@ + " "@) + value)));
}

/// An assignment is written as its text.
proof fn lemma_assignment_emits(statement: StatementView, before: Seq<char>, level: nat)
    requires
        statement.kind is Assignment,
    ensures
        emit(statement_items(statement, before + indent(level), level)) == before
            + statement_text(statement, "  "@, level),
{
    lemma_spacing();
    let lead = before + indent(level);
    let name = statement.kind->Assignment_name;
    let value = statement.kind->Assignment_value;
    let head = one(lead, TokenView::Identifier(name));
    let assign = one(" "@, TokenView::Assign);
    let tail = expression_items(value, " "@);
    lemma_emit_one(lead, TokenView::Identifier(name));
    lemma_emit_one(" "@, TokenView::Assign);
    lemma_expression_emits(value, " "@);
    lemma_emit_concat(head, assign);
    lemma_emit_concat(head + assign, tail);
    assert(lead + name + (" "@ + "="@) + (" "@ + expression_text(value)) =~= before + (indent(
        level,
    ) + (name + (" "@ + "="@ + " "@) + expression_text(value))));
}

/// A return is written as its text.
proof fn lemma_return_emits(statement: StatementView, before: Seq<char>, level: nat)
    requires
        statement.kind is Return,
    ensures
        emit(statement_items(statement, before + indent(level), level)) == before
            + statement_text(statement, "  "@, level),
{
    lemma_spacing();
    let lead = before + indent(level);
    let value = statement.kind->Return_0;
    lemma_emit_one(lead, TokenView::Return);
    lemma_expression_emits(value, " "@);
    lemma_emit_concat(one(lead, TokenView::Return), expression_items(value, " "@));
    assert(lead + "return"@ + (" "@ + expression_text(value)) =~= before + (indent(level) + (
    "return"@ + " "@ + expression_text(value))));
}

/// The text of a function declaration, in parts.
proof fn lemma_function_text(
    before: Seq<char>,
    indentation: Seq<char>,
    name: Seq<char>,
    parameters: Seq<char>,
    returned: Seq<char>,
    block: Seq<char>,
)
    ensures
        before + indentation + "fn"@ + (" "@ + name) + (Seq::<char>::empty() + "("@ + parameters
            + ")"@ + returned) + (" "@ + block) == before + (indentation + ("fn"@ + " "@ + name
            + "("@ + parameters + ")"@ + returned + " "@ + block)),
{
    assert(before + indentation + "fn"@ + (" "@ + name) + (Seq::<char>::empty() + "("@
        + parameters + ")"@ + returned) + (" "@ + block) =~= before + (indentation + ("fn"@
        + " "@ + name + "("@ + parameters + ")"@ + returned + " "@ + block)));
}

/// A statement is written as its text.
#[verifier::rlimit(60)]
pub proof fn lemma_statement_emits(statement: StatementView, before: Seq<char>, level: nat)
    ensures
        emit(statement_items(statement, before + indent(level), level)) == before
            + statement_text(statement, "  "@, level),
    decreases statement, 0nat,
{
    let none = Seq::<char>::empty();
    let lead = before + indent(level);
    match statement.kind {
        StatementKindView::Comment { .. } => {
            lemma_comment_emits(statement, before, level);
        },
        StatementKindView::Declaration { .. } => {
            lemma_declaration_emits(statement, before, level);
        },
        StatementKindView::Assignment { .. } => {
            lemma_assignment_emits(statement, before, level);
        },
        StatementKindView::Return(_) => {
            lemma_return_emits(statement, before, level);
        },
        StatementKindView::Block(statements) => {
            lemma_block_emits(statements, lead, level);
            assert(lead + block_text(statements, "  "@, level) =~= before + (indent(level)
                + block_text(statements, "  "@, level)));
        },
        StatementKindView::FunctionDeclaration { name, typ, body } => {
            let keyword = one(lead, TokenView::Function);
            let named = one(" "@, TokenView::Identifier(name));
            let head = signature_items(typ, none);
            let block = block_items(body, " "@, level);
            lemma_emit_one(lead, TokenView::Function);
            lemma_emit_one(" "@, TokenView::Identifier(name));
            lemma_signature_emits(typ, none);
            lemma_block_emits(body, " "@, level);
            lemma_emit_concat(keyword, named);
            lemma_emit_concat(keyword + named, head);
            lemma_emit_concat(keyword + named + head, block);
            lemma_function_text(
                before,
                indent(level),
                name,
                parameters_text(typ.parameters),
                return_type_text(typ.return_type),
                block_text(body, "  "@, level),
            );
            lemma_fn_keyword();
        },
        StatementKindView::Expression(value) => {
            lemma_expression_emits(value, lead);
            assert(lead + expression_text(value) =~= before + (indent(level) + expression_text(
                value,
            )));
        },
    }
}

/// How `fn ` is written.
proof fn lemma_fn_keyword()
    ensures
        "fn "@ == "fn"@ + " "@,
        TokenView::Function.literal() == "fn"@,
{
    lemma_spacing();
}

/// A block is written as its text.
#[verifier::rlimit(60)]
pub proof fn lemma_block_emits(statements: Seq<StatementView>, lead: Seq<char>, level: nat)
    ensures
        emit(block_items(statements, lead, level)) == lead + block_text(
            statements,
            "  "@,
            level,
        ),
    decreases statements, statements.len() + 1,
{
    lemma_spacing();
    lemma_literals();
    let none = Seq::<char>::empty();
    let white = closing_lead(statements.len(), level);
    let open = one(lead, TokenView::LeftBrace);
    let list = listed_statements(statements, statements.len(), "\n"@, deeper(level));
    let close = one(white, TokenView::RightBrace);
    lemma_emit_one(lead, TokenView::LeftBrace);
    lemma_emit_one(white, TokenView::RightBrace);
    lemma_statements_emit(statements, statements.len(), "\n"@, deeper(level));
    lemma_emit_concat(open, list);
    lemma_emit_concat(open + list, close);
    let inner = statements_text(statements, "  "@, deeper(level));
    let margin = indent(level);
    if statements.len() == 0 {
        assert(lead + "{"@ + none + ("\n"@ + "\n"@ + margin + "}"@) =~= lead + ("{\n"@ + inner
            + "\n"@ + margin + "}"@));
    } else {
        assert(lead + "{"@ + ("\n"@ + inner) + ("\n"@ + margin + "}"@) =~= lead + ("{\n"@
            + inner + "\n"@ + margin + "}"@));
    }
}

/// The first `n` statements of a list are written as their texts, each with its gap before it.
pub proof fn lemma_statements_emit(
    statements: Seq<StatementView>,
    n: nat,
    before: Seq<char>,
    level: nat,
)
    requires
        n <= statements.len(),
    ensures
        emit(listed_statements(statements, n, before, level)) == if n == 0 {
            Seq::<char>::empty()
        } else {
            before + laid_out(statements, statement_texts(statements, "  "@, level), n)
        },
    decreases statements, n,
{
    let parts = statement_texts(statements, "  "@, level);
    if n == 0 {
    } else {
        let earlier = listed_statements(statements, (n - 1) as nat, before, level);
        let white = if n == 1 {
            before
        } else {
            gap(statements[n - 2], statements[n - 1])
        };
        let last = statement_items(statements[n - 1], white + indent(level), level);
        lemma_statements_emit(statements, (n - 1) as nat, before, level);
        lemma_statement_emits(statements[n - 1], white, level);
        lemma_emit_concat(earlier, last);
        assert(parts[n - 1] == statement_text(statements[n - 1], "  "@, level));
        if n == 1 {
            assert(Seq::<char>::empty() + (before + parts[0]) =~= before + parts[0]);
        } else {
            assert(before + laid_out(statements, parts, (n - 1) as nat) + (white + parts[n - 1])
                =~= before + (laid_out(statements, parts, (n - 1) as nat) + white + parts[n
                - 1]));
        }
    }
}

/// A file is written as its text: its items, then a new line.
pub proof fn lemma_file_emits(statements: Seq<StatementView>)
    ensures
        emit(file_items(statements)) + "\n"@ == file_text(statements, "  "@, 0),
{
    lemma_statements_emit(statements, statements.len(), Seq::empty(), 0);
    let parts = statement_texts(statements, "  "@, 0);
    if statements.len() > 0 {
        assert(Seq::<char>::empty() + laid_out(statements, parts, statements.len())
            =~= laid_out(statements, parts, statements.len()));
    }
}

} // verus!
