//! Function declarations and returns.
use vstd::prelude::*;

use crate::ast::{FunctionDeclaration, Return, StatementKindView};
use crate::parser::Parser;
use crate::parser::error::{Error, ErrorView};
use crate::parser::precedence::Precedence;
use crate::token::Token;

verus! {

impl Parser {
    /// Parses a function declaration: `fn`, a name, the parameters in parentheses, the type
    /// that is returned if a colon follows, and a block.
    #[verifier::rlimit(60)]
    pub fn parse_function_declaration(&mut self) -> (r: Result<FunctionDeclaration, Error>)
        requires
            old(self).wf(),
        ensures
            final(self).wf(),
            final(self).source() == old(self).source(),
            match r {
                Ok(function) => {
                    &&& old(self).stream().function_declaration(old(self).at()) == Ok::<
                        (StatementKindView, int),
                        ErrorView,
                    >((function@, final(self).at()))
                    &&& old(self).stream().left(final(self).at()) < old(self).stream().left(
                        old(self).at(),
                    )
                },
                Err(error) => old(self).stream().function_declaration(old(self).at()) == Err::<
                    (StatementKindView, int),
                    ErrorView,
                >(error@),
            },
        decreases old(self).stream().left(old(self).at()), 6nat,
    {
        proof {
            self.lemma_wf();
        }
        match self.consume(Token::Function) {
            Ok(()) => {},
            Err(error) => {
                return Err(error);
            },
        }
        let name = match self.get_identifier_name() {
            Ok(name) => name,
            Err(error) => {
                return Err(error);
            },
        };
        match self.next() {
            Ok(()) => {},
            Err(error) => {
                return Err(error);
            },
        }
        let typ = match self.parse_signature() {
            Ok(typ) => typ,
            Err(error) => {
                return Err(error);
            },
        };
        let block = match self.parse_block_statement() {
            Ok(block) => block,
            Err(error) => {
                return Err(error);
            },
        };
        return Ok(FunctionDeclaration { name, typ, body: block });
    }

    /// Parses a return: `return` and an expression.
    #[verifier::rlimit(60)]
    pub fn parse_return_statement(&mut self) -> (r: Result<Return, Error>)
        requires
            old(self).wf(),
        ensures
            final(self).wf(),
            final(self).source() == old(self).source(),
            match r {
                Ok(ret) => {
                    &&& old(self).stream().return_statement(old(self).at()) == Ok::<
                        (StatementKindView, int),
                        ErrorView,
                    >((ret@, final(self).at()))
                    &&& old(self).stream().left(final(self).at()) < old(self).stream().left(
                        old(self).at(),
                    )
                },
                Err(error) => old(self).stream().return_statement(old(self).at()) == Err::<
                    (StatementKindView, int),
                    ErrorView,
                >(error@),
            },
        decreases old(self).stream().left(old(self).at()), 6nat,
    {
        proof {
            self.lemma_wf();
        }
        match self.consume(Token::Return) {
            Ok(()) => {},
            Err(error) => {
                return Err(error);
            },
        }
        let value = match self.parse_expression(Precedence::Lowest) {
            Ok(value) => Box::new(value),
            Err(error) => {
                return Err(error);
            },
        };
        return Ok(Return { value });
    }
}

} // verus!
