//! The items of a sound node can be read again: each token is sound, stands after whitespace
//! only, and ends before what is written after it.
use vstd::prelude::*;

use crate::ast::{
    ExpressionKindView, ExpressionView, FieldView, FunctionTypeView, ParameterView,
    StatementKindView, StatementView, TypeView,
};
use crate::fmt::render::{deeper, gap, repeat};
use crate::lexer::laws::{lemma_literals, lemma_run_end};
use crate::lexer::reread::{
    ends_before, follower, lemma_keywords, lemma_literal_starts, newlines, readable, rereadable,
    Item,
};
use crate::lexer::rules::Run;
use crate::lexer::sound::{all_of, sound};
use crate::roundtrip::items::{
    block_items, closing_lead, expression_items, field_items, file_items, indent, lead_of,
    listed_fields, listed_parameters, listed_statements, listed_types, one, parameter_items,
    signature_items, statement_items, type_items,
};
use crate::roundtrip::lines::{
    lemma_gap_newlines, lemma_indent_newlines, lemma_newlines_add, lemma_newlines_known,
    lemma_tidy_at,
};
use crate::roundtrip::sound::{
    lemma_sound_fields_at, lemma_sound_parameters_at, lemma_sound_statements_at,
    lemma_sound_types_at, sound_expression, sound_field, sound_fields, sound_function_type,
    sound_parameter, sound_parameters, sound_statement, sound_statements, sound_type, sound_types,
    tidy,
};
use crate::roundtrip::text::lemma_spacing;
use crate::token::TokenView;

verus! {

/// The first character that an item is written with.
pub open spec fn first_char(item: Item) -> char {
    if item.white.len() > 0 {
        item.white[0]
    } else {
        item.token.literal()[0]
    }
}

/// Whether each of the items is written in a source, after whitespace only, and ends before
/// the item after it.
pub open spec fn fits(items: Seq<Item>) -> bool {
    &&& forall|m: int|
        0 <= m < items.len() ==> rereadable(#[trigger] items[m].token) && all_of(
            items[m].white,
            Run::Blank,
        )
    &&& forall|m: int|
        0 <= m < items.len() - 1 ==> ends_before(
            (#[trigger] items[m]).token,
            first_char(items[m + 1]),
        )
}

/// Whether two lists of items can stand one after the other: the last of the first ends
/// before the first of the second.
pub open spec fn joins(a: Seq<Item>, b: Seq<Item>) -> bool {
    a.len() == 0 || b.len() == 0 || ends_before(a.last().token, first_char(b[0]))
}

/// Whether items start after the whitespace `lead`, fit, and do not end with a line comment.
pub open spec fn shaped(items: Seq<Item>, lead: Seq<char>) -> bool {
    &&& items.len() >= 1
    &&& items[0].white == lead
    &&& fits(items)
    &&& !(items.last().token is LineComment)
}

/// Two lists of items that fit, and join, fit one after the other.
pub proof fn lemma_fits_concat(a: Seq<Item>, b: Seq<Item>)
    requires
        fits(a),
        fits(b),
        joins(a, b),
    ensures
        fits(a + b),
{
    let whole = a + b;
    assert forall|m: int| 0 <= m < whole.len() implies rereadable(#[trigger] whole[m].token)
        && all_of(whole[m].white, Run::Blank) by {
        if m < a.len() {
            assert(whole[m] == a[m]);
        } else {
            assert(whole[m] == b[m - a.len()]);
        }
    }
    assert forall|m: int| 0 <= m < whole.len() - 1 implies ends_before(
        (#[trigger] whole[m]).token,
        first_char(whole[m + 1]),
    ) by {
        if m + 1 < a.len() {
            assert(whole[m] == a[m]);
            assert(whole[m + 1] == a[m + 1]);
        } else if m < a.len() {
            assert(whole[m] == a[m]);
            assert(whole[m + 1] == b[0]);
        } else {
            assert(whole[m] == b[m - a.len()]);
            assert(whole[m + 1] == b[m - a.len() + 1]);
        }
    }
}

/// One token that is written in a source, after whitespace only, fits.
pub proof fn lemma_fits_one(white: Seq<char>, token: TokenView)
    requires
        rereadable(token),
        all_of(white, Run::Blank),
    ensures
        fits(one(white, token)),
        one(white, token).len() == 1,
        one(white, token)[0].white == white,
        one(white, token)[0].token == token,
{
}

/// The whitespace that the formatter writes is whitespace.
pub proof fn lemma_blanks()
    ensures
        all_of(Seq::<char>::empty(), Run::Blank),
        all_of(" "@, Run::Blank),
        all_of(" "@ + " "@, Run::Blank),
        all_of("\n"@, Run::Blank),
        all_of("\n"@ + "\n"@, Run::Blank),
        all_of("\n\n"@, Run::Blank),
        all_of("  "@, Run::Blank),
        " "@.len() == 1,
        " "@[0] == ' ',
        (" "@ + " "@).len() == 2,
        (" "@ + " "@)[0] == ' ',
        "\n"@.len() == 1,
        "\n"@[0] == '\n',
        ("\n"@ + "\n"@).len() == 2,
        ("\n"@ + "\n"@)[0] == '\n',
{
    lemma_spacing();
}

/// What stands between the nodes of a list: a comma, which ends before the space after it.
pub proof fn lemma_comma()
    ensures
        fits(one(Seq::empty(), TokenView::Comma)),
        one(Seq::empty(), TokenView::Comma).len() == 1,
        one(Seq::empty(), TokenView::Comma)[0].token == TokenView::Comma,
        first_char(one(Seq::empty(), TokenView::Comma)[0]) == ',',
        all_of(" "@, Run::Blank),
        all_of(Seq::<char>::empty(), Run::Blank),
        " "@.len() == 1,
        " "@[0] == ' ',
        ends_before(TokenView::Comma, ' '),
{
    lemma_blanks();
    lemma_marks();
}

/// Two texts of whitespace, one after the other, are whitespace.
pub proof fn lemma_blank_concat(a: Seq<char>, b: Seq<char>)
    requires
        all_of(a, Run::Blank),
        all_of(b, Run::Blank),
    ensures
        all_of(a + b, Run::Blank),
{
    assert forall|i: int| 0 <= i < (a + b).len() implies Run::Blank.holds(
        #[trigger] (a + b)[i],
    ) by {
        if i < a.len() {
            assert((a + b)[i] == a[i]);
        } else {
            assert((a + b)[i] == b[i - a.len()]);
        }
    }
}

/// Indentation is whitespace.
pub proof fn lemma_indent_blank(level: nat)
    ensures
        all_of(indent(level), Run::Blank),
    decreases level,
{
    lemma_blanks();
    if level > 0 {
        lemma_indent_blank((level - 1) as nat);
        lemma_blank_concat(repeat("  "@, (level - 1) as nat), "  "@);
    }
}

/// The whitespace before the closing brace of a block is whitespace, and starts with a line
/// feed.
pub proof fn lemma_closing_lead(n: nat, level: nat)
    ensures
        all_of(closing_lead(n, level), Run::Blank),
        closing_lead(n, level).len() >= 1,
        closing_lead(n, level)[0] == '\n',
        newlines(closing_lead(n, level)) >= 1,
{
    lemma_blanks();
    lemma_indent_blank(level);
    lemma_newlines_known();
    lemma_indent_newlines(level);
    let breaks = if n == 0 {
        "\n"@ + "\n"@
    } else {
        "\n"@
    };
    lemma_blank_concat(breaks, indent(level));
    lemma_newlines_add(breaks, indent(level));
    assert(closing_lead(n, level)[0] == breaks[0]);
}

/// Every token but a line comment ends before a space and before `:`, `(`, `)` and `,`; every
/// token ends before a line feed.
pub proof fn lemma_ends_before(token: TokenView)
    ensures
        ends_before(token, '\n'),
        !(token is LineComment) ==> ends_before(token, ' ') && ends_before(token, ':')
            && ends_before(token, '(') && ends_before(token, ')') && ends_before(token, ','),
{
}

/// The characters that the delimiters and the keywords before names are written with.
pub proof fn lemma_marks()
    ensures
        ":"@[0] == ':',
        "("@[0] == '(',
        ")"@[0] == ')',
        ","@[0] == ',',
        rereadable(TokenView::Colon),
        rereadable(TokenView::Comma),
        rereadable(TokenView::LeftParenthesis),
        rereadable(TokenView::RightParenthesis),
        rereadable(TokenView::LeftBrace),
        rereadable(TokenView::RightBrace),
        rereadable(TokenView::Function),
        rereadable(TokenView::Mutable),
        rereadable(TokenView::Return),
        rereadable(TokenView::Declare),
        rereadable(TokenView::Assign),
        rereadable(TokenView::True),
        rereadable(TokenView::False),
{
    lemma_literals();
}

/// The names of the built-in types are names.
pub proof fn lemma_builtin_names()
    ensures
        rereadable(TokenView::Identifier("bool"@)),
        rereadable(TokenView::Identifier("int"@)),
        rereadable(TokenView::Identifier("float"@)),
        rereadable(TokenView::Identifier("string"@)),
{
    lemma_keywords();
    reveal_strlit("bool");
    reveal_strlit("int");
    reveal_strlit("float");
    reveal_strlit("string");
    assert("bool"@ =~= seq!['b', 'o', 'o', 'l']);
    assert("int"@ =~= seq!['i', 'n', 't']);
    assert("float"@ =~= seq!['f', 'l', 'o', 'a', 't']);
    assert("string"@ =~= seq!['s', 't', 'r', 'i', 'n', 'g']);
    assert("bool"@[0] != "true"@[0]);
    assert("int"@[0] != "mut"@[0]);
    assert("float"@[1] != "false"@[1]);
    assert("string"@[0] != "return"@[0]);
}

/// The first character of an operand is no `=`.
pub proof fn lemma_operand_opens(token: TokenView)
    requires
        rereadable(token),
        crate::roundtrip::chain::atom(token) || token == TokenView::Minus || token
            == TokenView::ExclamationMark,
    ensures
        token.literal().len() >= 1,
        token.literal()[0] != '=',
{
    lemma_literals();
    lemma_keywords();
    match token {
        TokenView::Float(text) => {
            lemma_run_end(text, 0, Run::Digits);
            assert(Run::Digits.holds(text[0]));
        },
        TokenView::Integer(text) => {
            assert(Run::Digits.holds(text[0]));
        },
        _ => {},
    }
}

/// The items of a sound expression fit.
#[verifier::rlimit(60)]
pub proof fn lemma_expression_fits(expression: ExpressionView, lead: Seq<char>)
    requires
        sound_expression(expression),
        all_of(lead, Run::Blank),
    ensures
        shaped(expression_items(expression, lead), lead),
        expression_items(expression, lead)[0].token.literal().len() >= 1,
        expression_items(expression, lead)[0].token.literal()[0] != '=',
    decreases expression,
{
    lemma_blanks();
    lemma_marks();
    let none = Seq::<char>::empty();
    let whole = expression_items(expression, lead);
    match expression.kind {
        ExpressionKindView::Prefix { operator, right } => {
            let head = one(lead, operator);
            let inner = expression_items(*right, none);
            lemma_expression_fits(*right, none);
            lemma_fits_one(lead, operator);
            lemma_operand_opens(operator);
            lemma_fits_concat(head, inner);
            assert(whole.last() == inner.last());
        },
        ExpressionKindView::Infix { left, operator, right } => {
            let first = expression_items(*left, lead);
            let middle = one(" "@, operator);
            let second = expression_items(*right, " "@);
            lemma_expression_fits(*left, lead);
            lemma_expression_fits(*right, " "@);
            lemma_fits_one(" "@, operator);
            lemma_ends_before(first.last().token);
            lemma_ends_before(operator);
            lemma_fits_concat(first, middle);
            assert((first + middle).last() == middle[0]);
            lemma_fits_concat(first + middle, second);
            assert(whole.last() == second.last());
            assert(whole[0] == first[0]);
        },
        _ => {
            lemma_fits_one(lead, whole[0].token);
            lemma_operand_opens(whole[0].token);
        },
    }
}

/// The items of a sound type fit.
#[verifier::rlimit(60)]
pub proof fn lemma_type_fits(typ: TypeView, lead: Seq<char>)
    requires
        sound_type(typ),
        all_of(lead, Run::Blank),
    ensures
        shaped(type_items(typ, lead), lead),
    decreases typ, 0nat,
{
    lemma_blanks();
    lemma_marks();
    lemma_builtin_names();
    let none = Seq::<char>::empty();
    let whole = type_items(typ, lead);
    match typ {
        TypeView::Tuple(elements) => {
            let open = one(lead, TokenView::LeftParenthesis);
            let list = listed_types(elements, elements.len());
            let close = one(none, TokenView::RightParenthesis);
            lemma_fits_one(lead, TokenView::LeftParenthesis);
            lemma_fits_one(none, TokenView::RightParenthesis);
            lemma_types_fit(elements, elements.len());
            lemma_fits_concat(open, list);
            if list.len() > 0 {
                lemma_ends_before(list.last().token);
                assert((open + list).last() == list.last());
            } else {
                assert(open + list =~= open);
            }
            lemma_fits_concat(open + list, close);
            assert(whole.last() == close[0]);
            assert(whole[0] == open[0]);
        },
        TypeView::Struct(fields) => {
            let white = if fields.len() == 0 {
                " "@ + " "@
            } else {
                " "@
            };
            let open = one(lead, TokenView::LeftBrace);
            let list = listed_fields(fields, fields.len());
            let close = one(white, TokenView::RightBrace);
            lemma_fits_one(lead, TokenView::LeftBrace);
            lemma_fits_one(white, TokenView::RightBrace);
            lemma_fields_fit(fields, fields.len());
            lemma_fits_concat(open, list);
            if list.len() > 0 {
                lemma_ends_before(list.last().token);
                assert((open + list).last() == list.last());
            } else {
                assert(open + list =~= open);
            }
            lemma_fits_concat(open + list, close);
            assert(whole.last() == close[0]);
            assert(whole[0] == open[0]);
        },
        TypeView::Function(function) => {
            let head = one(lead, TokenView::Function);
            let rest = signature_items(function, " "@);
            lemma_fits_one(lead, TokenView::Function);
            lemma_signature_fits(function, " "@);
            lemma_ends_before(TokenView::Function);
            lemma_fits_concat(head, rest);
            assert(whole.last() == rest.last());
            assert(whole[0] == head[0]);
        },
        _ => {
            lemma_fits_one(lead, whole[0].token);
        },
    }
}

/// Whether the items of a list fit, do not end with a line comment, and start after the
/// whitespace `lead` where there are any.
pub open spec fn listed(items: Seq<Item>, lead: Seq<char>) -> bool {
    &&& fits(items)
    &&& items.len() > 0 ==> items[0].white == lead && !(items.last().token is LineComment)
}

/// The items of the first `n` of the sound element types of a tuple type fit.
#[verifier::rlimit(60)]
pub proof fn lemma_types_fit(types: Seq<TypeView>, n: nat)
    requires
        sound_types(types, types.len()),
        n <= types.len(),
    ensures
        listed(listed_types(types, n), Seq::empty()),
        n > 0 ==> listed_types(types, n).len() > 0,
    decreases types, n,
{
    lemma_comma();
    let none = Seq::<char>::empty();
    if n == 0 {
    } else if n == 1 {
        lemma_sound_types_at(types, types.len(), 0);
        lemma_type_fits(types[0], none);
    } else {
        let before = listed_types(types, (n - 1) as nat);
        let comma = one(none, TokenView::Comma);
        let last = type_items(types[n - 1], " "@);
        lemma_types_fit(types, (n - 1) as nat);
        lemma_sound_types_at(types, types.len(), n - 1);
        lemma_type_fits(types[n - 1], " "@);
        lemma_ends_before(before.last().token);
        lemma_fits_concat(before, comma);
        assert((before + comma).last() == comma[0]);
        lemma_fits_concat(before + comma, last);
        let whole = listed_types(types, n);
        assert(whole.last() == last.last());
        assert(whole[0] == before[0]);
    }
}

/// The items of the first `n` of the sound fields of a struct type fit.
#[verifier::rlimit(60)]
pub proof fn lemma_fields_fit(fields: Seq<FieldView>, n: nat)
    requires
        sound_fields(fields, fields.len()),
        n <= fields.len(),
    ensures
        listed(listed_fields(fields, n), " "@),
        n > 0 ==> listed_fields(fields, n).len() > 0,
    decreases fields, n,
{
    lemma_comma();
    let none = Seq::<char>::empty();
    if n == 0 {
    } else if n == 1 {
        lemma_sound_fields_at(fields, fields.len(), 0);
        lemma_field_fits(fields[0], " "@);
    } else {
        let before = listed_fields(fields, (n - 1) as nat);
        let comma = one(none, TokenView::Comma);
        let last = field_items(fields[n - 1], " "@);
        lemma_fields_fit(fields, (n - 1) as nat);
        lemma_sound_fields_at(fields, fields.len(), n - 1);
        lemma_field_fits(fields[n - 1], " "@);
        lemma_ends_before(before.last().token);
        lemma_fits_concat(before, comma);
        assert((before + comma).last() == comma[0]);
        lemma_fits_concat(before + comma, last);
        let whole = listed_fields(fields, n);
        assert(whole.last() == last.last());
        assert(whole[0] == before[0]);
    }
}

/// The items of the first `n` of the sound parameters of a function fit.
#[verifier::rlimit(60)]
pub proof fn lemma_parameters_fit(parameters: Seq<ParameterView>, n: nat)
    requires
        sound_parameters(parameters, parameters.len()),
        n <= parameters.len(),
    ensures
        listed(listed_parameters(parameters, n), Seq::empty()),
        n > 0 ==> listed_parameters(parameters, n).len() > 0,
    decreases parameters, n,
{
    lemma_comma();
    let none = Seq::<char>::empty();
    if n == 0 {
    } else if n == 1 {
        lemma_sound_parameters_at(parameters, parameters.len(), 0);
        lemma_parameter_fits(parameters[0], none);
    } else {
        let before = listed_parameters(parameters, (n - 1) as nat);
        let comma = one(none, TokenView::Comma);
        let last = parameter_items(parameters[n - 1], " "@);
        lemma_parameters_fit(parameters, (n - 1) as nat);
        lemma_sound_parameters_at(parameters, parameters.len(), n - 1);
        lemma_parameter_fits(parameters[n - 1], " "@);
        lemma_ends_before(before.last().token);
        lemma_fits_concat(before, comma);
        assert((before + comma).last() == comma[0]);
        lemma_fits_concat(before + comma, last);
        let whole = listed_parameters(parameters, n);
        assert(whole.last() == last.last());
        assert(whole[0] == before[0]);
    }
}

/// The items of a sound field fit.
#[verifier::rlimit(60)]
pub proof fn lemma_field_fits(field: FieldView, lead: Seq<char>)
    requires
        sound_field(field),
        all_of(lead, Run::Blank),
    ensures
        shaped(field_items(field, lead), lead),
    decreases field, 0nat,
{
    lemma_blanks();
    lemma_marks();
    let none = Seq::<char>::empty();
    let name = one(lead, TokenView::Identifier(field.name));
    let colon = one(none, TokenView::Colon);
    let typ = type_items(field.typ, " "@);
    lemma_fits_one(lead, TokenView::Identifier(field.name));
    lemma_fits_one(none, TokenView::Colon);
    lemma_type_fits(field.typ, " "@);
    lemma_ends_before(TokenView::Identifier(field.name));
    lemma_ends_before(TokenView::Colon);
    lemma_fits_concat(name, colon);
    assert((name + colon).last() == colon[0]);
    lemma_fits_concat(name + colon, typ);
    let front = name + colon + typ;
    assert(front.last() == typ.last());
    assert(front[0] == name[0]);
    match field.default {
        Some(value) => {
            let assign = one(" "@, TokenView::Assign);
            let written = expression_items(value, " "@);
            lemma_fits_one(" "@, TokenView::Assign);
            lemma_expression_fits(value, " "@);
            lemma_ends_before(TokenView::Assign);
            lemma_ends_before(front.last().token);
            lemma_fits_concat(assign, written);
            assert((assign + written)[0] == assign[0]);
            lemma_fits_concat(front, assign + written);
            let whole = front + (assign + written);
            assert(whole.last() == written.last());
            assert(whole[0] == front[0]);
        },
        None => {
            assert(front + Seq::<Item>::empty() =~= front);
        },
    }
}

/// The items of a sound parameter fit.
pub proof fn lemma_parameter_fits(parameter: ParameterView, lead: Seq<char>)
    requires
        sound_parameter(parameter),
        all_of(lead, Run::Blank),
    ensures
        shaped(parameter_items(parameter, lead), lead),
    decreases parameter, 0nat,
{
    lemma_blanks();
    lemma_marks();
    let none = Seq::<char>::empty();
    let name = one(lead, TokenView::Identifier(parameter.name));
    let colon = one(none, TokenView::Colon);
    let typ = type_items(parameter.typ, " "@);
    lemma_fits_one(lead, TokenView::Identifier(parameter.name));
    lemma_fits_one(none, TokenView::Colon);
    lemma_type_fits(parameter.typ, " "@);
    lemma_ends_before(TokenView::Identifier(parameter.name));
    lemma_ends_before(TokenView::Colon);
    lemma_fits_concat(name, colon);
    assert((name + colon).last() == colon[0]);
    lemma_fits_concat(name + colon, typ);
    let whole = name + colon + typ;
    assert(whole.last() == typ.last());
    assert(whole[0] == name[0]);
}

/// The items of what follows the name in a sound function's head fit.
#[verifier::rlimit(60)]
pub proof fn lemma_signature_fits(function: FunctionTypeView, lead: Seq<char>)
    requires
        sound_function_type(function),
        all_of(lead, Run::Blank),
    ensures
        shaped(signature_items(function, lead), lead),
    decreases function, 0nat,
{
    lemma_blanks();
    lemma_marks();
    let none = Seq::<char>::empty();
    let open = one(lead, TokenView::LeftParenthesis);
    let list = listed_parameters(function.parameters, function.parameters.len());
    let close = one(none, TokenView::RightParenthesis);
    lemma_fits_one(lead, TokenView::LeftParenthesis);
    lemma_fits_one(none, TokenView::RightParenthesis);
    lemma_parameters_fit(function.parameters, function.parameters.len());
    lemma_fits_concat(open, list);
    if list.len() > 0 {
        lemma_ends_before(list.last().token);
        assert((open + list).last() == list.last());
    } else {
        assert(open + list =~= open);
    }
    lemma_fits_concat(open + list, close);
    let front = open + list + close;
    assert(front.last() == close[0]);
    assert(front[0] == open[0]);
    match function.return_type {
        Some(typ) => {
            let colon = one(none, TokenView::Colon);
            let written = type_items(*typ, " "@);
            lemma_fits_one(none, TokenView::Colon);
            lemma_type_fits(*typ, " "@);
            lemma_ends_before(TokenView::Colon);
            lemma_ends_before(TokenView::RightParenthesis);
            lemma_fits_concat(colon, written);
            assert((colon + written)[0] == colon[0]);
            lemma_fits_concat(front, colon + written);
            let whole = front + (colon + written);
            assert(whole.last() == written.last());
            assert(whole[0] == front[0]);
        },
        None => {
            assert(front + Seq::<Item>::empty() =~= front);
        },
    }
}

/// Whether items start after the whitespace `lead` and fit.
pub open spec fn started(items: Seq<Item>, lead: Seq<char>) -> bool {
    &&& items.len() >= 1
    &&& items[0].white == lead
    &&& fits(items)
}

/// The items of a sound and tidy statement fit.
#[verifier::rlimit(60)]
pub proof fn lemma_statement_fits(statement: StatementView, lead: Seq<char>, level: nat)
    requires
        sound_statement(statement),
        match statement.kind {
            StatementKindView::Block(inner) => tidy(inner, inner.len()),
            StatementKindView::FunctionDeclaration { body, .. } => tidy(body, body.len()),
            _ => true,
        },
        all_of(lead, Run::Blank),
    ensures
        started(statement_items(statement, lead, level), lead),
    decreases statement, 0nat,
{
    lemma_blanks();
    lemma_marks();
    let none = Seq::<char>::empty();
    let whole = statement_items(statement, lead, level);
    match statement.kind {
        StatementKindView::Comment { text, inline } => {
            lemma_fits_one(lead, whole[0].token);
        },
        StatementKindView::Declaration { name, mutable, value } => {
            let head = if mutable {
                one(lead, TokenView::Mutable) + one(" "@, TokenView::Identifier(name))
            } else {
                one(lead, TokenView::Identifier(name))
            };
            let declare = one(" "@, TokenView::Declare);
            let written = expression_items(value, " "@);
            lemma_fits_one(lead, TokenView::Mutable);
            lemma_fits_one(" "@, TokenView::Identifier(name));
            lemma_fits_one(lead, TokenView::Identifier(name));
            lemma_fits_one(" "@, TokenView::Declare);
            lemma_expression_fits(value, " "@);
            lemma_ends_before(TokenView::Mutable);
            lemma_ends_before(TokenView::Identifier(name));
            lemma_ends_before(TokenView::Declare);
            if mutable {
                lemma_fits_concat(
                    one(lead, TokenView::Mutable),
                    one(" "@, TokenView::Identifier(name)),
                );
            }
            assert(head.last().token == TokenView::Identifier(name));
            lemma_fits_concat(head, declare);
            assert((head + declare).last() == declare[0]);
            lemma_fits_concat(head + declare, written);
            assert(whole[0] == head[0]);
        },
        StatementKindView::Assignment { name, value } => {
            let head = one(lead, TokenView::Identifier(name));
            let assign = one(" "@, TokenView::Assign);
            let written = expression_items(value, " "@);
            lemma_fits_one(lead, TokenView::Identifier(name));
            lemma_fits_one(" "@, TokenView::Assign);
            lemma_expression_fits(value, " "@);
            lemma_ends_before(TokenView::Identifier(name));
            lemma_ends_before(TokenView::Assign);
            lemma_fits_concat(head, assign);
            assert((head + assign).last() == assign[0]);
            lemma_fits_concat(head + assign, written);
            assert(whole[0] == head[0]);
        },
        StatementKindView::Block(statements) => {
            lemma_block_fits(statements, lead, level);
        },
        StatementKindView::FunctionDeclaration { name, typ, body } => {
            let keyword = one(lead, TokenView::Function);
            let named = one(" "@, TokenView::Identifier(name));
            let head = signature_items(typ, none);
            let block = block_items(body, " "@, level);
            lemma_fits_one(lead, TokenView::Function);
            lemma_fits_one(" "@, TokenView::Identifier(name));
            lemma_signature_fits(typ, none);
            lemma_block_fits(body, " "@, level);
            lemma_ends_before(TokenView::Function);
            lemma_ends_before(TokenView::Identifier(name));
            lemma_fits_concat(keyword, named);
            assert((keyword + named).last() == named[0]);
            assert(head[0].token == TokenView::LeftParenthesis);
            lemma_fits_concat(keyword + named, head);
            assert((keyword + named + head).last() == head.last());
            lemma_ends_before(head.last().token);
            lemma_fits_concat(keyword + named + head, block);
            assert(whole[0] == keyword[0]);
        },
        StatementKindView::Return(value) => {
            let head = one(lead, TokenView::Return);
            let written = expression_items(value, " "@);
            lemma_fits_one(lead, TokenView::Return);
            lemma_expression_fits(value, " "@);
            lemma_ends_before(TokenView::Return);
            lemma_fits_concat(head, written);
            assert(whole[0] == head[0]);
        },
        StatementKindView::Expression(value) => {
            lemma_expression_fits(value, lead);
        },
    }
}

/// The items of a block of sound statements that is tidy fit, and end with its closing brace.
#[verifier::rlimit(60)]
pub proof fn lemma_block_fits(statements: Seq<StatementView>, lead: Seq<char>, level: nat)
    requires
        sound_statements(statements, statements.len()),
        tidy(statements, statements.len()),
        all_of(lead, Run::Blank),
    ensures
        shaped(block_items(statements, lead, level), lead),
    decreases statements, statements.len() + 1,
{
    lemma_blanks();
    lemma_marks();
    lemma_closing_lead(statements.len(), level);
    let white = closing_lead(statements.len(), level);
    let open = one(lead, TokenView::LeftBrace);
    let list = listed_statements(statements, statements.len(), "\n"@, deeper(level));
    let close = one(white, TokenView::RightBrace);
    lemma_fits_one(lead, TokenView::LeftBrace);
    lemma_fits_one(white, TokenView::RightBrace);
    lemma_statements_fit(statements, statements.len(), "\n"@, deeper(level));
    lemma_fits_concat(open, list);
    if list.len() > 0 {
        lemma_ends_before(list.last().token);
        assert((open + list).last() == list.last());
    } else {
        assert(open + list =~= open);
    }
    lemma_fits_concat(open + list, close);
    let whole = block_items(statements, lead, level);
    assert(whole.last() == close[0]);
    assert(whole[0] == open[0]);
}

/// The items of the first `n` statements of a tidy list of sound statements fit.
#[verifier::rlimit(60)]
pub proof fn lemma_statements_fit(
    statements: Seq<StatementView>,
    n: nat,
    before: Seq<char>,
    level: nat,
)
    requires
        sound_statements(statements, statements.len()),
        tidy(statements, statements.len()),
        n <= statements.len(),
        all_of(before, Run::Blank),
    ensures
        fits(listed_statements(statements, n, before, level)),
        n > 0 ==> listed_statements(statements, n, before, level).len() > 0,
    decreases statements, n,
{
    lemma_blanks();
    if n > 0 {
        let earlier = listed_statements(statements, (n - 1) as nat, before, level);
        let lead = lead_of(statements, n - 1, before, level);
        let last = statement_items(statements[n - 1], lead, level);
        lemma_statements_fit(statements, (n - 1) as nat, before, level);
        lemma_sound_statements_at(statements, statements.len(), n - 1);
        lemma_tidy_at(statements, statements.len(), n - 1);
        lemma_indent_blank(level);
        if n >= 2 {
            lemma_gap_newlines(statements[n - 2], statements[n - 1]);
            lemma_spacing();
            lemma_blank_concat(gap(statements[n - 2], statements[n - 1]), indent(level));
            assert(lead[0] == '\n');
            lemma_ends_before(earlier.last().token);
        } else {
            lemma_blank_concat(before, indent(level));
        }
        lemma_statement_fits(statements[n - 1], lead, level);
        lemma_fits_concat(earlier, last);
    }
}

/// Items that fit, and whitespace after them that the last of them ends before, can be read
/// again.
pub proof fn lemma_fits_readable(items: Seq<Item>, tail: Seq<char>)
    requires
        fits(items),
        all_of(tail, Run::Blank),
        items.len() > 0 && tail.len() > 0 ==> ends_before(items.last().token, tail[0]),
    ensures
        readable(items, tail),
{
    assert forall|m: int| 0 <= m < items.len() implies {
        &&& rereadable(#[trigger] items[m].token)
        &&& all_of(items[m].white, Run::Blank)
        &&& match follower(items, m, tail) {
            Some(c) => ends_before(items[m].token, c),
            None => true,
        }
    } by {
        if m + 1 < items.len() {
            assert(rereadable(items[m + 1].token));
            lemma_literal_starts(items[m + 1].token);
            assert(ends_before(items[m].token, first_char(items[m + 1])));
        }
    }
}

/// The items of a tidy file of sound statements, and the new line after them, can be read
/// again.
pub proof fn lemma_file_readable(statements: Seq<StatementView>)
    requires
        sound_statements(statements, statements.len()),
        tidy(statements, statements.len()),
    ensures
        readable(file_items(statements), "\n"@),
{
    lemma_blanks();
    let items = file_items(statements);
    lemma_statements_fit(statements, statements.len(), Seq::empty(), 0);
    if items.len() > 0 {
        lemma_ends_before(items.last().token);
    }
    lemma_fits_readable(items, "\n"@);
}

} // verus!
