//! Expressions, by precedence climbing.
use vstd::prelude::*;

use crate::ast::{
    Expression, ExpressionKind, ExpressionView, InfixExpression, PrefixExpression, Type,
};
use crate::ast::copy::copy_type;
use crate::ast::view::lemma_plain_types;
use crate::parser::Parser;
use crate::parser::error::{Error, ErrorView};
use crate::parser::grammar::is_infix;
use crate::parser::precedence::Precedence;
use crate::token::{Token, TokenView};

verus! {

/// Whether `token` is an operator that stands between two operands.
pub fn is_infix_operator(token: &Token) -> (r: bool)
    ensures
        r == is_infix(token@),
{
    match token {
        Token::Plus
        | Token::Minus
        | Token::Asterisk
        | Token::Slash
        | Token::Percent
        | Token::Equal
        | Token::NotEqual
        | Token::LessThan
        | Token::GreaterThan => true,
        _ => false,
    }
}

impl Parser {
    /// Parses an expression whose operators all bind more strongly than `precedence`, by
    /// precedence climbing: an operand, then every operator that binds more strongly than
    /// `precedence` with the operand after it. Operators of one strength fold to the left.
    #[verifier::rlimit(60)]
    pub fn parse_expression(&mut self, precedence: Precedence) -> (r: Result<Expression, Error>)
        requires
            old(self).wf(),
        ensures
            final(self).wf(),
            final(self).source() == old(self).source(),
            match r {
                Ok(expression) => {
                    &&& old(self).stream().expression(old(self).at(), precedence) == Ok::<
                        (ExpressionView, int),
                        ErrorView,
                    >((expression@, final(self).at()))
                    &&& old(self).stream().left(final(self).at()) < old(self).stream().left(
                        old(self).at(),
                    )
                },
                Err(error) => old(self).stream().expression(old(self).at(), precedence) == Err::<
                    (ExpressionView, int),
                    ErrorView,
                >(error@),
            },
        decreases old(self).stream().left(old(self).at()), 3nat,
    {
        let ghost s = self.stream();
        let ghost k = self.at();
        let mut expression = match self.parse_prefix() {
            Ok(expression) => expression,
            Err(error) => {
                return Err(error);
            },
        };
        // Continue until we reach a statement separator or an operator that binds no more
        // strongly.
        while !self.is_statement_separator() && precedence.weaker_than(
            Precedence::of(&self.current().token),
        ) && is_infix_operator(&self.current().token)
            invariant
                self.wf(),
                self.source() == old(self).source(),
                s == old(self).stream(),
                k == old(self).at(),
                s.left(self.at()) < s.left(k),
                s.expression(k, precedence) == s.climb(self.at(), precedence, expression@),
            decreases s.left(self.at()),
        {
            expression = match self.parse_infix(expression) {
                Ok(folded) => folded,
                Err(error) => {
                    return Err(error);
                },
            };
        }
        return Ok(expression);
    }

    /// Parses an operand: an identifier, a literal, an expression in parentheses, or a `-` or
    /// `!` before an operand.
    #[verifier::rlimit(60)]
    pub fn parse_prefix(&mut self) -> (r: Result<Expression, Error>)
        requires
            old(self).wf(),
        ensures
            final(self).wf(),
            final(self).source() == old(self).source(),
            match r {
                Ok(expression) => {
                    &&& old(self).stream().prefix(old(self).at()) == Ok::<
                        (ExpressionView, int),
                        ErrorView,
                    >((expression@, final(self).at()))
                    &&& old(self).stream().left(final(self).at()) < old(self).stream().left(
                        old(self).at(),
                    )
                },
                Err(error) => old(self).stream().prefix(old(self).at()) == Err::<
                    (ExpressionView, int),
                    ErrorView,
                >(error@),
            },
        decreases old(self).stream().left(old(self).at()), 2nat,
    {
        proof {
            self.lemma_wf();
        }
        let position = self.current().position();
        let (kind, typ) = match &self.current().token {
            Token::Identifier(id) => (ExpressionKind::Identifier(id.clone()), Type::Unknown),
            Token::Integer(i) => (ExpressionKind::Integer(i.clone()), Type::Integer),
            Token::Float(f) => (ExpressionKind::Float(f.clone()), Type::Float),
            Token::String(s) => (ExpressionKind::String(s.clone()), Type::String),
            Token::True => (ExpressionKind::Boolean(true), Type::Boolean),
            Token::False => (ExpressionKind::Boolean(false), Type::Boolean),
            Token::LeftParenthesis => {
                return self.parse_grouped_expression();
            },
            Token::Minus | Token::ExclamationMark => {
                return self.parse_prefix_expression();
            },
            _ => {
                return Err(self.unexpected("start of an expression"));
            },
        };
        match self.next() {
            Ok(()) => {},
            Err(error) => {
                return Err(error);
            },
        }
        proof {
            lemma_plain_types();
        }
        return Ok(Expression { kind, typ, position });
    }

    /// Folds in the operator that is the current token and the operand after it, if the current
    /// token is an operator; else gives `left` back.
    #[verifier::rlimit(60)]
    pub fn parse_infix(&mut self, left: Expression) -> (r: Result<Expression, Error>)
        requires
            old(self).wf(),
        ensures
            final(self).wf(),
            final(self).source() == old(self).source(),
            match r {
                Ok(expression) => {
                    &&& old(self).stream().infix(old(self).at(), left@) == Ok::<
                        (ExpressionView, int),
                        ErrorView,
                    >((expression@, final(self).at()))
                    &&& is_infix(old(self).stream().at(old(self).at()).token)
                        ==> old(self).stream().left(final(self).at()) < old(self).stream().left(
                        old(self).at(),
                    )
                },
                Err(error) => old(self).stream().infix(old(self).at(), left@) == Err::<
                    (ExpressionView, int),
                    ErrorView,
                >(error@),
            },
        decreases old(self).stream().left(old(self).at()), 1nat,
    {
        if is_infix_operator(&self.current().token) {
            return self.parse_infix_expression(left);
        } else {
            return Ok(left);
        }
    }

    /// Parses an expression in parentheses, the current token being the opening one. The
    /// expression's span is that of the parentheses.
    #[verifier::rlimit(60)]
    fn parse_grouped_expression(&mut self) -> (r: Result<Expression, Error>)
        requires
            old(self).wf(),
            old(self).stream().at(old(self).at()).token == TokenView::LeftParenthesis,
        ensures
            final(self).wf(),
            final(self).source() == old(self).source(),
            match r {
                Ok(expression) => {
                    &&& old(self).stream().prefix(old(self).at()) == Ok::<
                        (ExpressionView, int),
                        ErrorView,
                    >((expression@, final(self).at()))
                    &&& old(self).stream().left(final(self).at()) < old(self).stream().left(
                        old(self).at(),
                    )
                },
                Err(error) => old(self).stream().prefix(old(self).at()) == Err::<
                    (ExpressionView, int),
                    ErrorView,
                >(error@),
            },
        decreases old(self).stream().left(old(self).at()), 1nat,
    {
        proof {
            self.lemma_wf();
        }
        let mut position = self.current().position();
        match self.consume(Token::LeftParenthesis) {
            Ok(()) => {},
            Err(error) => {
                return Err(error);
            },
        }
        let mut expression = match self.parse_expression(Precedence::Lowest) {
            Ok(expression) => expression,
            Err(error) => {
                return Err(error);
            },
        };
        match self.consume(Token::RightParenthesis) {
            Ok(()) => {},
            Err(error) => {
                return Err(error);
            },
        }
        position.end = self.previous().position.end();
        expression.position = position;
        return Ok(expression);
    }

    /// Parses a `-` or `!`, the current token, and the operand after it.
    #[verifier::rlimit(60)]
    fn parse_prefix_expression(&mut self) -> (r: Result<Expression, Error>)
        requires
            old(self).wf(),
            old(self).stream().at(old(self).at()).token == TokenView::Minus || old(
                self,
            ).stream().at(old(self).at()).token == TokenView::ExclamationMark,
        ensures
            final(self).wf(),
            final(self).source() == old(self).source(),
            match r {
                Ok(expression) => {
                    &&& old(self).stream().prefix(old(self).at()) == Ok::<
                        (ExpressionView, int),
                        ErrorView,
                    >((expression@, final(self).at()))
                    &&& old(self).stream().left(final(self).at()) < old(self).stream().left(
                        old(self).at(),
                    )
                },
                Err(error) => old(self).stream().prefix(old(self).at()) == Err::<
                    (ExpressionView, int),
                    ErrorView,
                >(error@),
            },
        decreases old(self).stream().left(old(self).at()), 1nat,
    {
        proof {
            self.lemma_wf();
        }
        let mut position = self.current().position();
        let operator = self.current().token();
        match self.next() {
            Ok(()) => {},
            Err(error) => {
                return Err(error);
            },
        }
        let right = match self.parse_expression(Precedence::Prefix) {
            Ok(expression) => expression,
            Err(error) => {
                return Err(error);
            },
        };
        let typ = copy_type(&right.typ);
        position.end = right.position.end();
        return Ok(
            Expression {
                kind: ExpressionKind::Prefix(PrefixExpression { operator, right: Box::new(right) }),
                typ,
                position,
            },
        );
    }

    /// Parses the operator that is the current token and the operand after it, and folds them
    /// onto `left`. The operand takes every operator that binds more strongly than this one.
    #[verifier::rlimit(60)]
    fn parse_infix_expression(&mut self, left: Expression) -> (r: Result<Expression, Error>)
        requires
            old(self).wf(),
            is_infix(old(self).stream().at(old(self).at()).token),
        ensures
            final(self).wf(),
            final(self).source() == old(self).source(),
            match r {
                Ok(expression) => {
                    &&& old(self).stream().infix(old(self).at(), left@) == Ok::<
                        (ExpressionView, int),
                        ErrorView,
                    >((expression@, final(self).at()))
                    &&& old(self).stream().left(final(self).at()) < old(self).stream().left(
                        old(self).at(),
                    )
                },
                Err(error) => old(self).stream().infix(old(self).at(), left@) == Err::<
                    (ExpressionView, int),
                    ErrorView,
                >(error@),
            },
        decreases old(self).stream().left(old(self).at()), 0nat,
    {
        proof {
            self.lemma_wf();
        }
        let mut position = left.position;
        let operator = self.current().token();
        match self.next() {
            Ok(()) => {},
            Err(error) => {
                return Err(error);
            },
        }
        let right = match self.parse_expression(Precedence::of(&operator)) {
            Ok(expression) => expression,
            Err(error) => {
                return Err(error);
            },
        };
        position.end = right.position.end();
        let folded = Expression {
            kind: ExpressionKind::Infix(
                InfixExpression { left: Box::new(left), operator, right: Box::new(right) },
            ),
            typ: Type::Unknown,
            position,
        };
        proof {
            lemma_plain_types();
        }
        return Ok(folded);
    }
}

} // verus!
