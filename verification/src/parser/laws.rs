//! What holds of every parse.
//!
//! Each rule of the grammar that reads a node moves on by at least one token, so the rules
//! never stop for want of progress: `UnexpectedEOF` is the outcome of none of them.
use vstd::prelude::*;

use crate::ast::{
    ExpressionView, FieldView, ParameterView, StatementKindView, StatementView, TypeView,
};
use crate::lexer::stream::{stream_of, Stream};
use crate::parser::error::ErrorView;
use crate::parser::grammar::{is_infix, parse, Parsed};
use crate::parser::precedence::Precedence;
use crate::token::TokenView;

verus! {

/// Whether a rule that started at index `k` moved on: it read a node and stands at a later
/// token, or it stopped with an error other than `UnexpectedEOF`.
pub open spec fn moved<T>(s: Stream, k: int, parsed: Parsed<T>) -> bool {
    match parsed {
        Ok((_, k1)) => s.left(k1) < s.left(k),
        Err(error) => error != ErrorView::UnexpectedEOF,
    }
}

/// Whether a rule that started at index `k` did not go back: it stands at the same or a later
/// token, or it stopped with an error other than `UnexpectedEOF`.
pub open spec fn held<T>(s: Stream, k: int, parsed: Parsed<T>) -> bool {
    match parsed {
        Ok((_, k1)) => s.left(k1) <= s.left(k),
        Err(error) => error != ErrorView::UnexpectedEOF,
    }
}

/// Whether a step that started at index `k` did not go back.
pub open spec fn stepped(s: Stream, k: int, step: Result<int, ErrorView>) -> bool {
    match step {
        Ok(k1) => s.left(k1) <= s.left(k),
        Err(error) => error != ErrorView::UnexpectedEOF,
    }
}

/// Passing over a token, ending a statement and ending an element do not go back.
pub proof fn lemma_steps(s: Stream, k: int)
    ensures
        stepped(s, k, s.advance(k)),
        stepped(s, k, s.end_statement(k)),
        stepped(s, k, s.end_element(k)),
        s.unexpected(k, Seq::empty()) != ErrorView::UnexpectedEOF,
        forall|want: Seq<char>| #[trigger] s.unexpected(k, want) != ErrorView::UnexpectedEOF,
{
}

/// Reading an expression moves on.
pub proof fn lemma_expression_moves(s: Stream, k: int, min: Precedence)
    ensures
        moved(s, k, s.expression(k, min)),
    decreases s.left(k), 3nat,
{
    lemma_prefix_moves(s, k);
    match s.prefix(k) {
        Ok((left, k1)) => {
            lemma_climb_holds(s, k1, min, left);
        },
        Err(_) => {},
    }
}

/// Reading an operand moves on.
pub proof fn lemma_prefix_moves(s: Stream, k: int)
    ensures
        moved(s, k, s.prefix(k)),
    decreases s.left(k), 2nat,
{
    lemma_steps(s, k);
    match s.advance(k) {
        Ok(k1) => {
            if s.left(k1) < s.left(k) {
                lemma_expression_moves(s, k1, Precedence::Lowest);
                lemma_expression_moves(s, k1, Precedence::Prefix);
                match s.expression(k1, Precedence::Lowest) {
                    Ok((_, k2)) => {
                        lemma_steps(s, k2);
                    },
                    Err(_) => {},
                }
            }
        },
        Err(_) => {},
    }
}

/// Reading an operator and its operand does not go back.
pub proof fn lemma_infix_holds(s: Stream, k: int, left: ExpressionView)
    ensures
        held(s, k, s.infix(k, left)),
        is_infix(s.at(k).token) ==> moved(s, k, s.infix(k, left)),
    decreases s.left(k), 1nat,
{
    lemma_steps(s, k);
    if is_infix(s.at(k).token) {
        match s.advance(k) {
            Ok(k1) => {
                lemma_expression_moves(s, k1, Precedence::of_token(s.at(k).token));
            },
            Err(_) => {},
        }
    }
}

/// Reading the operators after an operand does not go back.
pub proof fn lemma_climb_holds(s: Stream, k: int, min: Precedence, left: ExpressionView)
    ensures
        held(s, k, s.climb(k, min, left)),
    decreases s.left(k), 2nat,
{
    if s.continues(k, min) {
        lemma_infix_holds(s, k, left);
        match s.infix(k, left) {
            Ok((folded, k1)) => {
                lemma_climb_holds(s, k1, min, folded);
            },
            Err(_) => {},
        }
    }
}

/// Reading a type moves on.
pub proof fn lemma_type_moves(s: Stream, k: int)
    ensures
        moved(s, k, s.typ(k)),
        moved(s, k, s.tuple_type(k)) || !(s.at(k).token == TokenView::LeftParenthesis),
        moved(s, k, s.struct_type(k)) || !(s.at(k).token == TokenView::LeftBrace),
        moved(s, k, s.function_type(k)) || !(s.at(k).token == TokenView::Function),
    decreases s.left(k), 2nat,
{
    lemma_steps(s, k);
    match s.advance(k) {
        Ok(k1) => {
            if s.left(k1) < s.left(k) {
                lemma_elements_hold(s, k1, Seq::empty());
                match s.elements(k1, Seq::empty()) {
                    Ok((_, k2)) => {
                        lemma_steps(s, k2);
                    },
                    Err(_) => {},
                }
                lemma_fields_hold(s, k1, Seq::empty());
                match s.fields(k1, Seq::empty()) {
                    Ok((_, k2)) => {
                        lemma_steps(s, k2);
                    },
                    Err(_) => {},
                }
                lemma_signature_moves(s, k1);
            }
        },
        Err(_) => {},
    }
}

/// Reading the element types of a tuple type does not go back.
pub proof fn lemma_elements_hold(s: Stream, k: int, done: Seq<TypeView>)
    ensures
        held(s, k, s.elements(k, done)),
    decreases s.left(k), 3nat,
{
    if s.at(k).token != TokenView::RightParenthesis {
        lemma_type_moves(s, k);
        match s.typ(k) {
            Ok((element, k1)) => {
                lemma_steps(s, k1);
                match s.end_element(k1) {
                    Ok(k2) => {
                        if s.left(k2) < s.left(k) {
                            lemma_elements_hold(s, k2, done.push(element));
                        }
                    },
                    Err(_) => {},
                }
            },
            Err(_) => {},
        }
    }
}

/// Reading the fields of a struct type does not go back.
pub proof fn lemma_fields_hold(s: Stream, k: int, done: Seq<FieldView>)
    ensures
        held(s, k, s.fields(k, done)),
    decreases s.left(k), 4nat,
{
    if s.at(k).token != TokenView::RightBrace {
        lemma_field_moves(s, k);
        match s.field(k) {
            Ok((field, k1)) => {
                lemma_steps(s, k1);
                match s.end_element(k1) {
                    Ok(k2) => {
                        if s.left(k2) < s.left(k) {
                            lemma_fields_hold(s, k2, done.push(field));
                        }
                    },
                    Err(_) => {},
                }
            },
            Err(_) => {},
        }
    }
}

/// Reading a field moves on.
pub proof fn lemma_field_moves(s: Stream, k: int)
    ensures
        moved(s, k, s.field(k)),
    decreases s.left(k), 3nat,
{
    lemma_steps(s, k);
    lemma_steps(s, k + 1);
    if s.identifier(k) is Ok && s.advance(k) is Ok && s.consume(k + 1, TokenView::Colon) is Ok {
        lemma_type_moves(s, k + 2);
        match s.typ(k + 2) {
            Ok((_, k3)) => {
                lemma_steps(s, k3);
                if s.advance(k3) is Ok && s.left(k3 + 1) < s.left(k) {
                    lemma_expression_moves(s, k3 + 1, Precedence::Lowest);
                }
            },
            Err(_) => {},
        }
    }
}

/// Reading a parameter moves on.
pub proof fn lemma_parameter_moves(s: Stream, k: int)
    ensures
        moved(s, k, s.parameter(k)),
    decreases s.left(k), 3nat,
{
    lemma_steps(s, k);
    lemma_steps(s, k + 1);
    if s.identifier(k) is Ok && s.advance(k) is Ok && s.consume(k + 1, TokenView::Colon) is Ok {
        lemma_type_moves(s, k + 2);
    }
}

/// Reading the parameters of a function does not go back.
pub proof fn lemma_parameters_hold(s: Stream, k: int, done: Seq<ParameterView>)
    ensures
        held(s, k, s.parameters(k, done)),
    decreases s.left(k), 4nat,
{
    if s.at(k).token != TokenView::RightParenthesis {
        lemma_parameter_moves(s, k);
        match s.parameter(k) {
            Ok((parameter, k1)) => {
                lemma_steps(s, k1);
                match s.end_element(k1) {
                    Ok(k2) => {
                        if s.left(k2) < s.left(k) {
                            lemma_parameters_hold(s, k2, done.push(parameter));
                        }
                    },
                    Err(_) => {},
                }
            },
            Err(_) => {},
        }
    }
}

/// Reading what follows the name in a function's head moves on.
pub proof fn lemma_signature_moves(s: Stream, k: int)
    ensures
        moved(s, k, s.signature(k)),
    decreases s.left(k), 5nat,
{
    lemma_steps(s, k);
    match s.consume(k, TokenView::LeftParenthesis) {
        Ok(k1) => {
            lemma_parameters_hold(s, k1, Seq::empty());
            match s.parameters(k1, Seq::empty()) {
                Ok((_, k2)) => {
                    lemma_steps(s, k2);
                    match s.consume(k2, TokenView::RightParenthesis) {
                        Ok(k3) => {
                            lemma_steps(s, k3);
                            if s.advance(k3) is Ok && s.left(k3 + 1) < s.left(k) {
                                lemma_type_moves(s, k3 + 1);
                            }
                        },
                        Err(_) => {},
                    }
                },
                Err(_) => {},
            }
        },
        Err(_) => {},
    }
}

/// Reading a statement moves on.
pub proof fn lemma_statement_moves(s: Stream, k: int)
    ensures
        moved(s, k, s.statement(k)),
    decreases s.left(k), 8nat,
{
    lemma_statement_kind_moves(s, k);
    match s.statement_kind(k) {
        Ok((_, k1)) => {
            lemma_steps(s, k1);
        },
        Err(_) => {},
    }
}

/// Reading what a statement is moves on.
pub proof fn lemma_statement_kind_moves(s: Stream, k: int)
    ensures
        moved(s, k, s.statement_kind(k)),
    decreases s.left(k), 7nat,
{
    lemma_steps(s, k);
    lemma_declaration_moves(s, k, true);
    lemma_declaration_moves(s, k, false);
    lemma_assignment_moves(s, k);
    lemma_block_moves(s, k);
    lemma_function_declaration_moves(s, k);
    lemma_return_moves(s, k);
    lemma_expression_moves(s, k, Precedence::Lowest);
}

/// Reading a declaration moves on.
pub proof fn lemma_declaration_moves(s: Stream, k: int, mutable: bool)
    ensures
        moved(s, k, s.declaration(k, mutable)),
    decreases s.left(k), 6nat,
{
    lemma_steps(s, k);
    let k0 = if mutable {
        k + 1
    } else {
        k
    };
    lemma_steps(s, k0);
    lemma_steps(s, k0 + 1);
    let start = if mutable {
        s.consume(k, TokenView::Mutable)
    } else {
        Ok(k)
    };
    if start is Ok && s.identifier(k0) is Ok && s.advance(k0) is Ok && s.consume(
        k0 + 1,
        TokenView::Declare,
    ) is Ok {
        lemma_expression_moves(s, k0 + 2, Precedence::Lowest);
    }
}

/// Reading an assignment moves on.
pub proof fn lemma_assignment_moves(s: Stream, k: int)
    ensures
        moved(s, k, s.assignment(k)),
    decreases s.left(k), 6nat,
{
    lemma_steps(s, k);
    lemma_steps(s, k + 1);
    if s.identifier(k) is Ok && s.advance(k) is Ok && s.consume(
        k + 1,
        TokenView::Assign,
    ) is Ok {
        lemma_expression_moves(s, k + 2, Precedence::Lowest);
    }
}

/// Reading a return moves on.
pub proof fn lemma_return_moves(s: Stream, k: int)
    ensures
        moved(s, k, s.return_statement(k)),
    decreases s.left(k), 6nat,
{
    lemma_steps(s, k);
    if s.consume(k, TokenView::Return) is Ok {
        lemma_expression_moves(s, k + 1, Precedence::Lowest);
    }
}

/// Reading a block moves on.
pub proof fn lemma_block_moves(s: Stream, k: int)
    ensures
        moved(s, k, s.block(k)),
    decreases s.left(k), 6nat,
{
    lemma_steps(s, k);
    if s.consume(k, TokenView::LeftBrace) is Ok {
        lemma_statements_hold(s, k + 1, Seq::empty());
        match s.statements(k + 1, Seq::empty()) {
            Ok((_, k2)) => {
                lemma_steps(s, k2);
            },
            Err(_) => {},
        }
    }
}

/// Reading the statements of a block does not go back.
pub proof fn lemma_statements_hold(s: Stream, k: int, done: Seq<StatementView>)
    ensures
        held(s, k, s.statements(k, done)),
    decreases s.left(k), 9nat,
{
    if s.at(k).token != TokenView::RightBrace {
        lemma_statement_moves(s, k);
        match s.statement(k) {
            Ok((statement, k1)) => {
                lemma_statements_hold(s, k1, done.push(statement));
            },
            Err(_) => {},
        }
    }
}

/// Reading a function declaration moves on.
pub proof fn lemma_function_declaration_moves(s: Stream, k: int)
    ensures
        moved(s, k, s.function_declaration(k)),
    decreases s.left(k), 6nat,
{
    lemma_steps(s, k);
    lemma_steps(s, k + 1);
    if s.consume(k, TokenView::Function) is Ok && s.identifier(k + 1) is Ok
        && s.advance(k + 1) is Ok {
        lemma_signature_moves(s, k + 2);
        match s.signature(k + 2) {
            Ok((_, k3)) => {
                if s.left(k3) < s.left(k) {
                    lemma_block_moves(s, k3);
                }
            },
            Err(_) => {},
        }
    }
}

/// The statements of a source are read to its end, or reading stops with an error other than
/// `UnexpectedEOF`.
pub proof fn lemma_file_never_stuck(s: Stream, k: int, done: Seq<StatementView>)
    ensures
        s.file(k, done) != Err::<Seq<StatementView>, ErrorView>(ErrorView::UnexpectedEOF),
    decreases s.left(k), 9nat,
{
    if s.at(k).token != TokenView::EOF {
        lemma_statement_moves(s, k);
        match s.statement(k) {
            Ok((statement, k1)) => {
                lemma_file_never_stuck(s, k1, done.push(statement));
            },
            Err(_) => {},
        }
    }
}

/// No parse stops with `UnexpectedEOF`: where the source ends too early, the error names the
/// end as a token that stands where another is needed.
pub proof fn lemma_parse_never_stuck(src: Seq<char>)
    ensures
        parse(src) != Err::<Seq<StatementView>, ErrorView>(ErrorView::UnexpectedEOF),
{
    lemma_file_never_stuck(stream_of(src), 0, Seq::empty());
}

/// A token that cannot be read is never passed over in silence: once the lookahead has met
/// one, every rule stops with its error, whatever the tokens before it are.
pub proof fn lemma_failure_surfaces(s: Stream, k: int, min: Precedence, done: Seq<StatementView>)
    requires
        s.failed(k),
    ensures
        s.end is Failure,
        s.expression(k, min) == Err::<(ExpressionView, int), ErrorView>(
            ErrorView::LexerError(s.end->Failure_0),
        ),
        s.typ(k) == Err::<(TypeView, int), ErrorView>(ErrorView::LexerError(s.end->Failure_0)),
        s.statement(k) == Err::<(StatementView, int), ErrorView>(
            ErrorView::LexerError(s.end->Failure_0),
        ),
        s.file(k, done) == Err::<Seq<StatementView>, ErrorView>(
            ErrorView::LexerError(s.end->Failure_0),
        ),
{
    let error = ErrorView::LexerError(s.end->Failure_0);
    assert(s.advance(k) == Err::<int, ErrorView>(error));
    assert(forall|want: Seq<char>| #[trigger] s.unexpected(k, want) == error);
    assert(s.prefix(k) == Err::<(ExpressionView, int), ErrorView>(error));
    assert(s.typ(k) == Err::<(TypeView, int), ErrorView>(error)) by {
        assert(s.tuple_type(k) is Err);
        assert(s.struct_type(k) is Err);
        assert(s.function_type(k) is Err);
    }
    assert(s.statement_kind(k) == Err::<(StatementKindView, int), ErrorView>(
        error,
    )) by {
        assert(s.declaration(k, true) is Err);
        assert(s.declaration(k, false) is Err);
        assert(s.assignment(k) is Err);
        assert(s.block(k) is Err);
        assert(s.function_declaration(k) is Err);
        assert(s.return_statement(k) is Err);
    }
}

} // verus!
