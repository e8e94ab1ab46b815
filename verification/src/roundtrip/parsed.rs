//! Whatever is parsed from a source is sound: its nodes carry the texts of sound tokens.
use vstd::prelude::*;
use vstd::utf8::encode_utf8;

use crate::ast::{
    ExpressionView, FieldView, ParameterView, StatementKindView, StatementView, TypeView,
};
use crate::lexer::laws::lemma_run_end;
use crate::lexer::rules::{lex, run_end, Run, Scanned};
use crate::lexer::sound::{lemma_token_sound, sound};
use crate::lexer::stream::{lemma_stream_step, stream_from, Stream};
use crate::parser::grammar::{is_infix, Parsed};
use crate::parser::laws::{
    lemma_field_moves, lemma_infix_holds, lemma_parameter_moves, lemma_parameters_hold,
    lemma_prefix_moves, lemma_signature_moves, lemma_statement_moves, lemma_steps, lemma_type_moves,
};
use crate::parser::precedence::Precedence;
use crate::roundtrip::sound::{
    sound_expression, sound_field, sound_fields, sound_function_type, sound_parameter,
    sound_parameters, sound_statement, sound_statements, sound_type, sound_types,
};
use crate::token::{Position, Span, TokenView};

verus! {

/// Whether every token of a stream is sound.
pub open spec fn sound_stream(s: Stream) -> bool {
    forall|m: int| 0 <= m < s.tokens.len() ==> sound(#[trigger] s.tokens[m].token)
}

/// Every token of a source is sound.
pub proof fn lemma_stream_sound(src: Seq<char>, i: int)
    requires
        0 <= i <= src.len(),
        encode_utf8(src).len() <= usize::MAX,
    ensures
        sound_stream(stream_from(src, i)),
    decreases src.len() - i,
{
    lemma_stream_step(src, i);
    lemma_run_end(src, i, Run::Blank);
    lemma_token_sound(src, run_end(src, i, Run::Blank));
    match lex(src, i) {
        Scanned::Token { token, span, next } => {
            if token != TokenView::EOF {
                lemma_stream_sound(src, next);
                let whole = stream_from(src, i);
                let later = stream_from(src, next);
                assert forall|m: int| 0 <= m < whole.tokens.len() implies sound(
                    #[trigger] whole.tokens[m].token,
                ) by {
                    if m > 0 {
                        assert(whole.tokens[m] == later.tokens[m - 1]);
                    }
                }
            }
        },
        Scanned::UnexpectedEof { .. } => {},
    }
}

/// The token at every index of a sound stream is sound.
pub proof fn lemma_sound_at(s: Stream, k: int)
    requires
        sound_stream(s),
    ensures
        sound(s.at(k).token),
{
}

/// Whether what a rule read is sound.
pub open spec fn sound_expression_read(parsed: Parsed<ExpressionView>) -> bool {
    match parsed {
        Ok((expression, _)) => sound_expression(expression),
        Err(_) => true,
    }
}

/// What is read as an expression from sound tokens is sound.
pub proof fn lemma_expression_sound(s: Stream, k: int, min: Precedence)
    requires
        sound_stream(s),
    ensures
        sound_expression_read(s.expression(k, min)),
    decreases s.left(k), 3nat,
{
    lemma_prefix_sound(s, k);
    lemma_prefix_moves(s, k);
    match s.prefix(k) {
        Ok((left, k1)) => {
            lemma_climb_sound(s, k1, min, left);
        },
        Err(_) => {},
    }
}

/// What is read as an operand from sound tokens is sound.
pub proof fn lemma_prefix_sound(s: Stream, k: int)
    requires
        sound_stream(s),
    ensures
        sound_expression_read(s.prefix(k)),
    decreases s.left(k), 2nat,
{
    lemma_sound_at(s, k);
    lemma_steps(s, k);
    match s.advance(k) {
        Ok(k1) => {
            if s.left(k1) < s.left(k) {
                lemma_expression_sound(s, k1, Precedence::Lowest);
                lemma_expression_sound(s, k1, Precedence::Prefix);
            }
        },
        Err(_) => {},
    }
}

/// What is read as an operator and its operand from sound tokens is sound.
pub proof fn lemma_infix_sound(s: Stream, k: int, left: ExpressionView)
    requires
        sound_stream(s),
        sound_expression(left),
    ensures
        sound_expression_read(s.infix(k, left)),
    decreases s.left(k), 1nat,
{
    lemma_steps(s, k);
    if is_infix(s.at(k).token) {
        match s.advance(k) {
            Ok(k1) => {
                lemma_expression_sound(s, k1, Precedence::of_token(s.at(k).token));
            },
            Err(_) => {},
        }
    }
}

/// What is read as the operators after an operand from sound tokens is sound.
pub proof fn lemma_climb_sound(s: Stream, k: int, min: Precedence, left: ExpressionView)
    requires
        sound_stream(s),
        sound_expression(left),
    ensures
        sound_expression_read(s.climb(k, min, left)),
    decreases s.left(k), 2nat,
{
    if s.continues(k, min) {
        lemma_infix_sound(s, k, left);
        lemma_infix_holds(s, k, left);
        match s.infix(k, left) {
            Ok((folded, k1)) => {
                lemma_climb_sound(s, k1, min, folded);
            },
            Err(_) => {},
        }
    }
}

/// Whether the first types of a list are sound depends on them only.
pub proof fn lemma_types_same(a: Seq<TypeView>, b: Seq<TypeView>, n: nat)
    requires
        n <= a.len(),
        n <= b.len(),
        forall|i: int| 0 <= i < n ==> a[i] == b[i],
    ensures
        sound_types(a, n) == sound_types(b, n),
    decreases n,
{
    if n > 0 {
        lemma_types_same(a, b, (n - 1) as nat);
    }
}

/// A list of sound types with one more is a list of sound types.
pub proof fn lemma_types_push(done: Seq<TypeView>, last: TypeView)
    requires
        sound_types(done, done.len()),
        sound_type(last),
    ensures
        sound_types(done.push(last), done.len() + 1),
{
    lemma_types_same(done, done.push(last), done.len());
}

/// Whether the first fields of a list are sound depends on them only.
pub proof fn lemma_fields_same(a: Seq<FieldView>, b: Seq<FieldView>, n: nat)
    requires
        n <= a.len(),
        n <= b.len(),
        forall|i: int| 0 <= i < n ==> a[i] == b[i],
    ensures
        sound_fields(a, n) == sound_fields(b, n),
    decreases n,
{
    if n > 0 {
        lemma_fields_same(a, b, (n - 1) as nat);
    }
}

/// A list of sound fields with one more is a list of sound fields.
pub proof fn lemma_fields_push(done: Seq<FieldView>, last: FieldView)
    requires
        sound_fields(done, done.len()),
        sound_field(last),
    ensures
        sound_fields(done.push(last), done.len() + 1),
{
    lemma_fields_same(done, done.push(last), done.len());
}

/// Whether the first parameters of a list are sound depends on them only.
pub proof fn lemma_parameters_same(a: Seq<ParameterView>, b: Seq<ParameterView>, n: nat)
    requires
        n <= a.len(),
        n <= b.len(),
        forall|i: int| 0 <= i < n ==> a[i] == b[i],
    ensures
        sound_parameters(a, n) == sound_parameters(b, n),
    decreases n,
{
    if n > 0 {
        lemma_parameters_same(a, b, (n - 1) as nat);
    }
}

/// A list of sound parameters with one more is a list of sound parameters.
pub proof fn lemma_parameters_push(done: Seq<ParameterView>, last: ParameterView)
    requires
        sound_parameters(done, done.len()),
        sound_parameter(last),
    ensures
        sound_parameters(done.push(last), done.len() + 1),
{
    lemma_parameters_same(done, done.push(last), done.len());
}

/// Whether the first statements of a list are sound depends on them only.
pub proof fn lemma_statements_same(a: Seq<StatementView>, b: Seq<StatementView>, n: nat)
    requires
        n <= a.len(),
        n <= b.len(),
        forall|i: int| 0 <= i < n ==> a[i] == b[i],
    ensures
        sound_statements(a, n) == sound_statements(b, n),
    decreases n,
{
    if n > 0 {
        lemma_statements_same(a, b, (n - 1) as nat);
    }
}

/// A list of sound statements with one more is a list of sound statements.
pub proof fn lemma_statements_push(done: Seq<StatementView>, last: StatementView)
    requires
        sound_statements(done, done.len()),
        sound_statement(last),
    ensures
        sound_statements(done.push(last), done.len() + 1),
{
    lemma_statements_same(done, done.push(last), done.len());
}

/// What is read as a type from sound tokens is sound.
pub proof fn lemma_type_sound(s: Stream, k: int)
    requires
        sound_stream(s),
    ensures
        match s.typ(k) {
            Ok((typ, _)) => sound_type(typ),
            Err(_) => true,
        },
    decreases s.left(k), 2nat,
{
    lemma_sound_at(s, k);
    lemma_steps(s, k);
    match s.advance(k) {
        Ok(k1) => {
            if s.left(k1) < s.left(k) {
                lemma_elements_sound(s, k1, Seq::empty());
                lemma_fields_sound(s, k1, Seq::empty());
                lemma_signature_sound(s, k1);
            }
        },
        Err(_) => {},
    }
}

/// What is read as the element types of a tuple type from sound tokens is sound.
pub proof fn lemma_elements_sound(s: Stream, k: int, done: Seq<TypeView>)
    requires
        sound_stream(s),
        sound_types(done, done.len()),
    ensures
        match s.elements(k, done) {
            Ok((types, _)) => sound_types(types, types.len()),
            Err(_) => true,
        },
    decreases s.left(k), 3nat,
{
    if s.at(k).token != TokenView::RightParenthesis {
        lemma_type_sound(s, k);
        lemma_type_moves(s, k);
        match s.typ(k) {
            Ok((element, k1)) => {
                lemma_types_push(done, element);
                lemma_steps(s, k1);
                match s.end_element(k1) {
                    Ok(k2) => {
                        if s.left(k2) < s.left(k) {
                            lemma_elements_sound(s, k2, done.push(element));
                        }
                    },
                    Err(_) => {},
                }
            },
            Err(_) => {},
        }
    }
}

/// What is read as the fields of a struct type from sound tokens is sound.
pub proof fn lemma_fields_sound(s: Stream, k: int, done: Seq<FieldView>)
    requires
        sound_stream(s),
        sound_fields(done, done.len()),
    ensures
        match s.fields(k, done) {
            Ok((fields, _)) => sound_fields(fields, fields.len()),
            Err(_) => true,
        },
    decreases s.left(k), 4nat,
{
    if s.at(k).token != TokenView::RightBrace {
        lemma_field_sound(s, k);
        lemma_field_moves(s, k);
        match s.field(k) {
            Ok((field, k1)) => {
                lemma_fields_push(done, field);
                lemma_steps(s, k1);
                match s.end_element(k1) {
                    Ok(k2) => {
                        if s.left(k2) < s.left(k) {
                            lemma_fields_sound(s, k2, done.push(field));
                        }
                    },
                    Err(_) => {},
                }
            },
            Err(_) => {},
        }
    }
}

/// What is read as a field from sound tokens is sound.
pub proof fn lemma_field_sound(s: Stream, k: int)
    requires
        sound_stream(s),
    ensures
        match s.field(k) {
            Ok((field, _)) => sound_field(field),
            Err(_) => true,
        },
    decreases s.left(k), 3nat,
{
    lemma_sound_at(s, k);
    lemma_steps(s, k);
    lemma_steps(s, k + 1);
    if s.identifier(k) is Ok && s.advance(k) is Ok && s.consume(k + 1, TokenView::Colon) is Ok {
        lemma_type_sound(s, k + 2);
        lemma_type_moves(s, k + 2);
        match s.typ(k + 2) {
            Ok((_, k3)) => {
                lemma_steps(s, k3);
                if s.advance(k3) is Ok && s.left(k3 + 1) < s.left(k) {
                    lemma_expression_sound(s, k3 + 1, Precedence::Lowest);
                }
            },
            Err(_) => {},
        }
    }
}

/// What is read as a parameter from sound tokens is sound.
pub proof fn lemma_parameter_sound(s: Stream, k: int)
    requires
        sound_stream(s),
    ensures
        match s.parameter(k) {
            Ok((parameter, _)) => sound_parameter(parameter),
            Err(_) => true,
        },
    decreases s.left(k), 3nat,
{
    lemma_sound_at(s, k);
    lemma_steps(s, k);
    lemma_steps(s, k + 1);
    if s.identifier(k) is Ok && s.advance(k) is Ok && s.consume(k + 1, TokenView::Colon) is Ok {
        lemma_type_sound(s, k + 2);
    }
}

/// What is read as the parameters of a function from sound tokens is sound.
pub proof fn lemma_parameters_sound(s: Stream, k: int, done: Seq<ParameterView>)
    requires
        sound_stream(s),
        sound_parameters(done, done.len()),
    ensures
        match s.parameters(k, done) {
            Ok((parameters, _)) => sound_parameters(parameters, parameters.len()),
            Err(_) => true,
        },
    decreases s.left(k), 4nat,
{
    if s.at(k).token != TokenView::RightParenthesis {
        lemma_parameter_sound(s, k);
        lemma_parameter_moves(s, k);
        match s.parameter(k) {
            Ok((parameter, k1)) => {
                lemma_parameters_push(done, parameter);
                lemma_steps(s, k1);
                match s.end_element(k1) {
                    Ok(k2) => {
                        if s.left(k2) < s.left(k) {
                            lemma_parameters_sound(s, k2, done.push(parameter));
                        }
                    },
                    Err(_) => {},
                }
            },
            Err(_) => {},
        }
    }
}

/// What is read as what follows the name in a function's head from sound tokens is sound.
pub proof fn lemma_signature_sound(s: Stream, k: int)
    requires
        sound_stream(s),
    ensures
        match s.signature(k) {
            Ok((function, _)) => sound_function_type(function),
            Err(_) => true,
        },
    decreases s.left(k), 5nat,
{
    lemma_steps(s, k);
    match s.consume(k, TokenView::LeftParenthesis) {
        Ok(k1) => {
            lemma_parameters_sound(s, k1, Seq::empty());
            lemma_parameters_hold(s, k1, Seq::empty());
            match s.parameters(k1, Seq::empty()) {
                Ok((_, k2)) => {
                    lemma_steps(s, k2);
                    match s.consume(k2, TokenView::RightParenthesis) {
                        Ok(k3) => {
                            lemma_steps(s, k3);
                            if s.advance(k3) is Ok && s.left(k3 + 1) < s.left(k) {
                                lemma_type_sound(s, k3 + 1);
                            }
                        },
                        Err(_) => {},
                    }
                },
                Err(_) => {},
            }
        },
        Err(_) => {},
    }
}

/// What is read as a statement from sound tokens is sound.
pub proof fn lemma_statement_sound(s: Stream, k: int)
    requires
        sound_stream(s),
    ensures
        match s.statement(k) {
            Ok((statement, _)) => sound_statement(statement),
            Err(_) => true,
        },
    decreases s.left(k), 8nat,
{
    lemma_statement_kind_sound(s, k);
}

/// Whether a statement of a kind is sound.
pub open spec fn sound_kind(kind: StatementKindView) -> bool {
    sound_statement(
        StatementView {
            kind,
            position: Span { start: Position::origin(), end: Position::origin() },
        },
    )
}

/// What is read as what a statement is from sound tokens is sound.
pub proof fn lemma_statement_kind_sound(s: Stream, k: int)
    requires
        sound_stream(s),
    ensures
        match s.statement_kind(k) {
            Ok((kind, _)) => sound_kind(kind),
            Err(_) => true,
        },
    decreases s.left(k), 7nat,
{
    lemma_sound_at(s, k);
    lemma_steps(s, k);
    lemma_declaration_sound(s, k, true);
    lemma_declaration_sound(s, k, false);
    lemma_assignment_sound(s, k);
    lemma_block_sound(s, k);
    lemma_function_declaration_sound(s, k);
    lemma_return_sound(s, k);
    lemma_expression_sound(s, k, Precedence::Lowest);
}

/// What is read as a declaration from sound tokens is sound.
pub proof fn lemma_declaration_sound(s: Stream, k: int, mutable: bool)
    requires
        sound_stream(s),
    ensures
        match s.declaration(k, mutable) {
            Ok((kind, _)) => sound_kind(kind),
            Err(_) => true,
        },
    decreases s.left(k), 6nat,
{
    lemma_steps(s, k);
    let k0 = if mutable {
        k + 1
    } else {
        k
    };
    lemma_sound_at(s, k0);
    lemma_steps(s, k0);
    lemma_steps(s, k0 + 1);
    let start = if mutable {
        s.consume(k, TokenView::Mutable)
    } else {
        Ok(k)
    };
    if start is Ok && s.identifier(k0) is Ok && s.advance(k0) is Ok && s.consume(
        k0 + 1,
        TokenView::Declare,
    ) is Ok {
        lemma_expression_sound(s, k0 + 2, Precedence::Lowest);
    }
}

/// What is read as an assignment from sound tokens is sound.
pub proof fn lemma_assignment_sound(s: Stream, k: int)
    requires
        sound_stream(s),
    ensures
        match s.assignment(k) {
            Ok((kind, _)) => sound_kind(kind),
            Err(_) => true,
        },
    decreases s.left(k), 6nat,
{
    lemma_sound_at(s, k);
    lemma_steps(s, k);
    lemma_steps(s, k + 1);
    if s.identifier(k) is Ok && s.advance(k) is Ok && s.consume(k + 1, TokenView::Assign) is Ok {
        lemma_expression_sound(s, k + 2, Precedence::Lowest);
    }
}

/// What is read as a return from sound tokens is sound.
pub proof fn lemma_return_sound(s: Stream, k: int)
    requires
        sound_stream(s),
    ensures
        match s.return_statement(k) {
            Ok((kind, _)) => sound_kind(kind),
            Err(_) => true,
        },
    decreases s.left(k), 6nat,
{
    lemma_steps(s, k);
    if s.consume(k, TokenView::Return) is Ok {
        lemma_expression_sound(s, k + 1, Precedence::Lowest);
    }
}

/// What is read as a block from sound tokens is sound.
pub proof fn lemma_block_sound(s: Stream, k: int)
    requires
        sound_stream(s),
    ensures
        match s.block(k) {
            Ok((statements, _)) => sound_statements(statements, statements.len()),
            Err(_) => true,
        },
    decreases s.left(k), 6nat,
{
    lemma_steps(s, k);
    if s.consume(k, TokenView::LeftBrace) is Ok {
        lemma_statements_sound(s, k + 1, Seq::empty());
    }
}

/// What is read as the statements of a block from sound tokens is sound.
pub proof fn lemma_statements_sound(s: Stream, k: int, done: Seq<StatementView>)
    requires
        sound_stream(s),
        sound_statements(done, done.len()),
    ensures
        match s.statements(k, done) {
            Ok((statements, _)) => sound_statements(statements, statements.len()),
            Err(_) => true,
        },
    decreases s.left(k), 9nat,
{
    if s.at(k).token != TokenView::RightBrace {
        lemma_statement_sound(s, k);
        lemma_statement_moves(s, k);
        match s.statement(k) {
            Ok((statement, k1)) => {
                lemma_statements_push(done, statement);
                lemma_statements_sound(s, k1, done.push(statement));
            },
            Err(_) => {},
        }
    }
}

/// What is read as a function declaration from sound tokens is sound.
pub proof fn lemma_function_declaration_sound(s: Stream, k: int)
    requires
        sound_stream(s),
    ensures
        match s.function_declaration(k) {
            Ok((kind, _)) => sound_kind(kind),
            Err(_) => true,
        },
    decreases s.left(k), 6nat,
{
    lemma_steps(s, k);
    lemma_steps(s, k + 1);
    lemma_sound_at(s, k + 1);
    if s.consume(k, TokenView::Function) is Ok && s.identifier(k + 1) is Ok && s.advance(k + 1) is Ok {
        lemma_signature_sound(s, k + 2);
        lemma_signature_moves(s, k + 2);
        match s.signature(k + 2) {
            Ok((_, k3)) => {
                if s.left(k3) < s.left(k) {
                    lemma_block_sound(s, k3);
                }
            },
            Err(_) => {},
        }
    }
}

/// The statements of a file that is parsed from sound tokens are sound.
pub proof fn lemma_file_sound(s: Stream, k: int, done: Seq<StatementView>)
    requires
        sound_stream(s),
        sound_statements(done, done.len()),
    ensures
        match s.file(k, done) {
            Ok(statements) => sound_statements(statements, statements.len()),
            Err(_) => true,
        },
    decreases s.left(k), 9nat,
{
    if s.at(k).token != TokenView::EOF {
        lemma_statement_sound(s, k);
        lemma_statement_moves(s, k);
        match s.statement(k) {
            Ok((statement, k1)) => {
                lemma_statements_push(done, statement);
                lemma_file_sound(s, k1, done.push(statement));
            },
            Err(_) => {},
        }
    }
}

} // verus!
