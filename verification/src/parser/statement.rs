//! Statements.
use vstd::prelude::*;

use crate::ast::{
    Assignment, Block, Comment, Declaration, Statement, StatementKind, StatementKindView,
    StatementView,
};
use crate::ast::view::{lemma_statement_kinds, lemma_views_push, statements_view};
use crate::parser::Parser;
use crate::parser::error::{Error, ErrorView};
use crate::parser::precedence::Precedence;
use crate::token::{Token, TokenView};

verus! {

impl Parser {
    /// Parses a statement and the separator that ends it. The statement's span runs from its
    /// first token through the last token read, its separator included where that is a token.
    #[verifier::rlimit(60)]
    pub fn parse_statement(&mut self) -> (r: Result<Statement, Error>)
        requires
            old(self).wf(),
        ensures
            final(self).wf(),
            final(self).source() == old(self).source(),
            match r {
                Ok(statement) => {
                    &&& old(self).stream().statement(old(self).at()) == Ok::<
                        (StatementView, int),
                        ErrorView,
                    >((statement@, final(self).at()))
                    &&& old(self).stream().left(final(self).at()) < old(self).stream().left(
                        old(self).at(),
                    )
                },
                Err(error) => old(self).stream().statement(old(self).at()) == Err::<
                    (StatementView, int),
                    ErrorView,
                >(error@),
            },
        decreases old(self).stream().left(old(self).at()), 8nat,
    {
        proof {
            self.lemma_wf();
        }
        let mut position = self.current().position();
        let kind = match &self.current().token {
            Token::LineComment(_) | Token::BlockComment(_) => match self.parse_comment_statement() {
                Ok(comment) => StatementKind::Comment(comment),
                Err(error) => {
                    return Err(error);
                },
            },
            Token::Mutable => match self.parse_declaration_statement(true) {
                Ok(declaration) => StatementKind::Declaration(declaration),
                Err(error) => {
                    return Err(error);
                },
            },
            Token::LeftBrace => match self.parse_block_statement() {
                Ok(block) => StatementKind::Block(block),
                Err(error) => {
                    return Err(error);
                },
            },
            Token::Function => match self.parse_function_declaration() {
                Ok(function) => StatementKind::FunctionDeclaration(function),
                Err(error) => {
                    return Err(error);
                },
            },
            Token::Return => match self.parse_return_statement() {
                Ok(ret) => StatementKind::Return(ret),
                Err(error) => {
                    return Err(error);
                },
            },
            _ => match &self.upcoming().token {
                Token::Declare => match self.parse_declaration_statement(false) {
                    Ok(declaration) => StatementKind::Declaration(declaration),
                    Err(error) => {
                        return Err(error);
                    },
                },
                Token::Assign => match self.parse_assignment_statement() {
                    Ok(assignment) => StatementKind::Assignment(assignment),
                    Err(error) => {
                        return Err(error);
                    },
                },
                _ => match self.parse_expression(Precedence::Lowest) {
                    Ok(expression) => StatementKind::Expression(expression),
                    Err(error) => {
                        return Err(error);
                    },
                },
            },
        };
        proof {
            lemma_statement_kinds(kind);
        }
        match self.consume_statement_separator() {
            Ok(()) => {},
            Err(error) => {
                return Err(error);
            },
        }
        position.end = self.previous().position.end();
        return Ok(Statement { kind, position });
    }

    /// Parses a comment, the current token: a line comment is inline, a block comment is not.
    #[verifier::rlimit(60)]
    fn parse_comment_statement(&mut self) -> (r: Result<Comment, Error>)
        requires
            old(self).wf(),
            old(self).stream().at(old(self).at()).token is LineComment || old(self).stream().at(
                old(self).at(),
            ).token is BlockComment,
        ensures
            final(self).wf(),
            final(self).source() == old(self).source(),
            match r {
                Ok(comment) => {
                    &&& old(self).stream().statement_kind(old(self).at()) == Ok::<
                        (StatementKindView, int),
                        ErrorView,
                    >((comment@, final(self).at()))
                    &&& old(self).stream().left(final(self).at()) < old(self).stream().left(
                        old(self).at(),
                    )
                },
                Err(error) => old(self).stream().statement_kind(old(self).at()) == Err::<
                    (StatementKindView, int),
                    ErrorView,
                >(error@),
            },
    {
        proof {
            self.lemma_wf();
        }
        let comment = match self.current().token() {
            Token::LineComment(comment) => Comment { comment, inline: true },
            Token::BlockComment(comment) => Comment { comment, inline: false },
            _ => Comment { comment: String::new(), inline: false },
        };
        match self.next() {
            Ok(()) => {},
            Err(error) => {
                return Err(error);
            },
        }
        return Ok(comment);
    }

    /// Parses a declaration: `mut` if it is `mutable`, a name, `:=` and an expression.
    #[verifier::rlimit(60)]
    fn parse_declaration_statement(&mut self, mutable: bool) -> (r: Result<Declaration, Error>)
        requires
            old(self).wf(),
        ensures
            final(self).wf(),
            final(self).source() == old(self).source(),
            match r {
                Ok(declaration) => {
                    &&& old(self).stream().declaration(old(self).at(), mutable) == Ok::<
                        (StatementKindView, int),
                        ErrorView,
                    >((declaration@, final(self).at()))
                    &&& old(self).stream().left(final(self).at()) < old(self).stream().left(
                        old(self).at(),
                    )
                },
                Err(error) => old(self).stream().declaration(old(self).at(), mutable) == Err::<
                    (StatementKindView, int),
                    ErrorView,
                >(error@),
            },
        decreases old(self).stream().left(old(self).at()), 6nat,
    {
        proof {
            self.lemma_wf();
        }
        if mutable {
            match self.consume(Token::Mutable) {
                Ok(()) => {},
                Err(error) => {
                    return Err(error);
                },
            }
        }
        let name = match self.get_identifier_name() {
            Ok(name) => name,
            Err(error) => {
                return Err(error);
            },
        };
        match self.next() {
            Ok(()) => {},
            Err(error) => {
                return Err(error);
            },
        }
        match self.consume(Token::Declare) {
            Ok(()) => {},
            Err(error) => {
                return Err(error);
            },
        }
        let value = match self.parse_expression(Precedence::Lowest) {
            Ok(value) => Box::new(value),
            Err(error) => {
                return Err(error);
            },
        };
        return Ok(Declaration { mutable, name, value });
    }

    /// Parses an assignment: a name, `=` and an expression.
    #[verifier::rlimit(60)]
    fn parse_assignment_statement(&mut self) -> (r: Result<Assignment, Error>)
        requires
            old(self).wf(),
        ensures
            final(self).wf(),
            final(self).source() == old(self).source(),
            match r {
                Ok(assignment) => {
                    &&& old(self).stream().assignment(old(self).at()) == Ok::<
                        (StatementKindView, int),
                        ErrorView,
                    >((assignment@, final(self).at()))
                    &&& old(self).stream().left(final(self).at()) < old(self).stream().left(
                        old(self).at(),
                    )
                },
                Err(error) => old(self).stream().assignment(old(self).at()) == Err::<
                    (StatementKindView, int),
                    ErrorView,
                >(error@),
            },
        decreases old(self).stream().left(old(self).at()), 6nat,
    {
        proof {
            self.lemma_wf();
        }
        let name = match self.get_identifier_name() {
            Ok(name) => name,
            Err(error) => {
                return Err(error);
            },
        };
        match self.next() {
            Ok(()) => {},
            Err(error) => {
                return Err(error);
            },
        }
        match self.consume(Token::Assign) {
            Ok(()) => {},
            Err(error) => {
                return Err(error);
            },
        }
        let value = match self.parse_expression(Precedence::Lowest) {
            Ok(value) => Box::new(value),
            Err(error) => {
                return Err(error);
            },
        };
        return Ok(Assignment { name, value });
    }

    /// Parses a block: statements in braces.
    #[verifier::rlimit(60)]
    pub fn parse_block_statement(&mut self) -> (r: Result<Block, Error>)
        requires
            old(self).wf(),
        ensures
            final(self).wf(),
            final(self).source() == old(self).source(),
            match r {
                Ok(block) => {
                    &&& old(self).stream().block(old(self).at()) == Ok::<
                        (Seq<StatementView>, int),
                        ErrorView,
                    >((block@, final(self).at()))
                    &&& old(self).stream().left(final(self).at()) < old(self).stream().left(
                        old(self).at(),
                    )
                },
                Err(error) => old(self).stream().block(old(self).at()) == Err::<
                    (Seq<StatementView>, int),
                    ErrorView,
                >(error@),
            },
        decreases old(self).stream().left(old(self).at()), 6nat,
    {
        proof {
            self.lemma_wf();
            lemma_views_push();
        }
        let ghost s = self.stream();
        let ghost k = self.at();
        match self.consume(Token::LeftBrace) {
            Ok(()) => {},
            Err(error) => {
                return Err(error);
            },
        }
        let mut statements: Vec<Box<Statement>> = Vec::new();
        while !matches!(self.current().token, Token::RightBrace)
            invariant
                self.wf(),
                self.source() == old(self).source(),
                s == old(self).stream(),
                k == old(self).at(),
                s.left(self.at()) < s.left(k),
                s.consume(k, TokenView::LeftBrace) == Ok::<int, ErrorView>(k + 1),
                s.statements(k + 1, Seq::empty()) == s.statements(
                    self.at(),
                    statements_view(statements@),
                ),
            decreases s.left(self.at()),
        {
            proof {
                lemma_views_push();
            }
            let statement = match self.parse_statement() {
                Ok(statement) => statement,
                Err(error) => {
                    return Err(error);
                },
            };
            statements.push(Box::new(statement));
        }
        match self.consume(Token::RightBrace) {
            Ok(()) => {},
            Err(error) => {
                return Err(error);
            },
        }
        return Ok(Block { statements });
    }
}

} // verus!
