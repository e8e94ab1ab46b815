//! The parser: tokens to a tree.
use vstd::prelude::*;
use vstd::string::StringExecFns;

pub mod error;
pub mod expression;
pub mod function;
pub mod grammar;
pub mod laws;
pub mod precedence;
pub mod statement;
pub mod types;

pub use error::{Error, ErrorView};
pub use precedence::Precedence;

use crate::ast::{File, StatementView};
use crate::ast::view::lemma_views_push;
use crate::lexer;
use crate::lexer::Lexer;
use crate::lexer::laws::lemma_whole;
use crate::lexer::stream::{lemma_stream_step, stream_from, stream_of, Ending, Stream};
use crate::token::{Token, TokenInfo, TokenView};

verus! {

/// Reads a source statement by statement, looking one token ahead of the current one.
#[derive(Clone)]
pub struct Parser {
    lexer: Lexer,
    previous: TokenInfo,
    current: TokenInfo,
    next: TokenInfo,
    /// The error of the token that could not be read into the lookahead, once there is one.
    failure: Option<lexer::Error>,
    /// The index of the current token among the tokens of the source.
    place: Ghost<int>,
}

impl Parser {
    /// The characters of the source that the parser reads.
    pub closed spec fn source(&self) -> Seq<char> {
        self.lexer.source()
    }

    /// The tokens of the source that the parser reads.
    pub open spec fn stream(&self) -> Stream {
        stream_of(self.source())
    }

    /// The index of the current token among the tokens of the source.
    pub closed spec fn at(&self) -> int {
        self.place@
    }

    /// The parser's invariant while it fills its window: the three tokens it holds are the
    /// current one, the one before and the one after it, and its lexer stands behind them.
    pub closed spec fn inv(&self) -> bool {
        let s = stream_of(self.lexer.source());
        let k = self.place@;
        let n = s.tokens.len() as int;
        &&& self.lexer.wf()
        &&& k >= -2
        &&& self.previous@ == s.at(k - 1)
        &&& self.current@ == s.at(k)
        &&& self.next@ == s.at(k + 1)
        &&& match self.failure {
            Some(error) => s.end == Ending::Failure(error) && k + 2 > n,
            None => {
                &&& s.end is Failure ==> k + 2 <= n
                &&& stream_from(self.lexer.source(), self.lexer.index()) == s.drop(
                    if k + 2 <= n {
                        k + 2
                    } else {
                        n
                    },
                )
            },
        }
    }

    /// The parser's invariant.
    pub closed spec fn wf(&self) -> bool {
        self.inv() && self.place@ >= 0
    }

    /// A well-formed parser stands at a token of its source or at its end.
    pub proof fn lemma_wf(&self)
        requires
            self.wf(),
        ensures
            self.inv(),
            self.at() >= 0,
    {
    }

    #[verifier::rlimit(60)]
    pub fn new(source: &str) -> (parser: Self)
        ensures
            parser.wf(),
            parser.source() == source@,
            parser.at() == 0,
    {
        let lexer = Lexer::new(source);
        let mut parser = Self {
            lexer,
            previous: TokenInfo::new(),
            current: TokenInfo::new(),
            next: TokenInfo::new(),
            failure: None,
            place: Ghost(-2),
        };
        proof {
            let s = stream_of(source@);
            assert(s.drop(0) == s) by {
                assert(s.tokens.skip(0) =~= s.tokens);
            }
        }
        match parser.next() {
            Ok(()) => {
                let _second = parser.next();
            },
            Err(_) => {
                // No token at all could be read: the window holds blank tokens only.
                parser.place = Ghost(0);
            },
        }
        parser
    }

    /// Moves on by one token: the current token becomes the previous one, the next one the
    /// current one, and a new token is read into the lookahead. If that one cannot be read, the
    /// blank token takes its place, and the error is returned now and by every later call.
    #[verifier::rlimit(60)]
    pub fn next(&mut self) -> (r: Result<(), Error>)
        requires
            old(self).inv(),
        ensures
            final(self).inv(),
            old(self).wf() ==> final(self).wf(),
            final(self).source() == old(self).source(),
            match r {
                Ok(()) => {
                    &&& old(self).stream().advance(old(self).at()) == Ok::<int, ErrorView>(
                        final(self).at(),
                    )
                    &&& final(self).at() == old(self).at() + 1
                },
                Err(error) => {
                    &&& old(self).stream().advance(old(self).at()) == Err::<int, ErrorView>(
                        error@,
                    )
                    &&& final(self).at() == if old(self).stream().failed(old(self).at()) {
                        old(self).at()
                    } else {
                        old(self).at() + 1
                    }
                },
            },
    {
        if let Some(error) = self.failure {
            return Err(Error::LexerError(error));
        }
        let ghost src = self.lexer.source();
        let ghost s = stream_of(src);
        let ghost k = self.place@;
        let ghost i = self.lexer.index();
        proof {
            self.lexer.lemma_wf();
            lemma_whole(src);
            lemma_stream_step(src, i);
        }
        match self.lexer.next() {
            Ok(token) => {
                let position = self.lexer.position();
                core::mem::swap(&mut self.current, &mut self.previous);
                core::mem::swap(&mut self.next, &mut self.current);
                self.next = TokenInfo { token, position };
                self.place = Ghost(k + 1);
                proof {
                    let j = self.lexer.index();
                    if token@ == TokenView::EOF {
                        assert(s.tokens.skip(s.tokens.len() as int) =~= Seq::empty());
                        assert(stream_from(src, j) == s.drop(s.tokens.len() as int));
                    } else {
                        let m = if k + 2 <= s.tokens.len() {
                            k + 2
                        } else {
                            s.tokens.len() as int
                        };
                        let whole = s.drop(m).tokens;
                        let rest = stream_from(src, j).tokens;
                        assert(whole == seq![self.next@] + rest);
                        assert(whole.len() == 1 + rest.len());
                        assert(whole[0] == self.next@);
                        assert(m == k + 2);
                        assert forall|t: int| 0 <= t < rest.len() implies rest[t]
                            == s.tokens.skip(k + 3)[t] by {
                            assert(whole[t + 1] == rest[t]);
                        }
                        assert(rest =~= s.tokens.skip(k + 3));
                        assert(stream_from(src, j) == s.drop(k + 3));
                    }
                }
                Ok(())
            },
            Err(error) => {
                core::mem::swap(&mut self.current, &mut self.previous);
                core::mem::swap(&mut self.next, &mut self.current);
                self.next = TokenInfo::new();
                self.failure = Some(error);
                self.place = Ghost(k + 1);
                Err(Error::LexerError(error))
            },
        }
    }

    /// The current token.
    pub fn current(&self) -> (r: &TokenInfo)
        requires
            self.wf(),
        ensures
            r@ == self.stream().at(self.at()),
    {
        &self.current
    }

    /// The token before the current one; the blank token before the first.
    pub fn previous(&self) -> (r: &TokenInfo)
        requires
            self.wf(),
        ensures
            r@ == self.stream().at(self.at() - 1),
    {
        &self.previous
    }

    /// The token after the current one.
    pub fn upcoming(&self) -> (r: &TokenInfo)
        requires
            self.wf(),
        ensures
            r@ == self.stream().at(self.at() + 1),
    {
        &self.next
    }

    /// The error of the token that the lookahead could not read, if it has met one.
    pub fn failure(&self) -> (r: Option<lexer::Error>)
        requires
            self.wf(),
        ensures
            match r {
                Some(error) => {
                    &&& self.stream().failed(self.at())
                    &&& self.stream().end == Ending::Failure(error)
                },
                None => !self.stream().failed(self.at()),
            },
    {
        self.failure
    }

    /// Parses the source: statements up to its end. Stops at the first error; a token that
    /// cannot be read is an error as soon as the lookahead meets it.
    #[verifier::rlimit(60)]
    pub fn parse(&mut self) -> (r: Result<File, Error>)
        requires
            old(self).wf(),
        ensures
            final(self).wf(),
            final(self).source() == old(self).source(),
            match r {
                Ok(file) => old(self).stream().file(old(self).at(), Seq::empty()) == Ok::<
                    Seq<StatementView>,
                    ErrorView,
                >(file@),
                Err(error) => old(self).stream().file(old(self).at(), Seq::empty()) == Err::<
                    Seq<StatementView>,
                    ErrorView,
                >(error@),
            },
            old(self).at() == 0 ==> old(self).stream().file(old(self).at(), Seq::empty())
                == grammar::parse(old(self).source()),
    {
        let ghost s = self.stream();
        let ghost k = self.at();
        let mut file = File::new();
        proof {
            lemma_views_push();
        }
        while !matches!(self.current().token, Token::EOF)
            invariant
                self.wf(),
                self.source() == old(self).source(),
                s == old(self).stream(),
                k == old(self).at(),
                s.file(k, Seq::empty()) == s.file(self.at(), file@),
            decreases s.left(self.at()),
        {
            proof {
                lemma_views_push();
            }
            let statement = match self.parse_statement() {
                Ok(statement) => statement,
                Err(error) => {
                    return Err(error);
                },
            };
            file.statements.push(Box::new(statement));
        }
        if let Some(error) = self.failure() {
            return Err(Error::LexerError(error));
        }
        return Ok(file);
    }

    /// The error for the current token standing where `want` is needed.
    pub fn unexpected(&self, want: &str) -> (error: Error)
        requires
            self.wf(),
        ensures
            error@ == self.stream().unexpected(self.at(), want@),
    {
        match self.failure {
            Some(error) => Error::LexerError(error),
            None => Error::UnexpectedToken {
                want: String::from_str(want),
                got: self.current.token.to_string(),
                position: self.current.position(),
            },
        }
    }

    /// Checks that the current token is `token`.
    pub fn expect(&self, token: Token) -> (r: Result<(), Error>)
        requires
            self.wf(),
        ensures
            match r {
                Ok(()) => self.stream().at(self.at()).token == token@,
                Err(error) => {
                    &&& self.stream().at(self.at()).token != token@
                    &&& error@ == self.stream().unexpected(self.at(), token@.literal())
                },
            },
    {
        if self.current.token.same(&token) {
            return Ok(());
        } else {
            let want = token.to_string();
            return Err(self.unexpected(want.as_str()));
        }
    }

    /// Moves on from the current token if it is `token`.
    #[verifier::rlimit(60)]
    pub fn consume(&mut self, token: Token) -> (r: Result<(), Error>)
        requires
            old(self).wf(),
        ensures
            final(self).wf(),
            final(self).source() == old(self).source(),
            match r {
                Ok(()) => {
                    &&& old(self).stream().consume(old(self).at(), token@) == Ok::<
                        int,
                        ErrorView,
                    >(final(self).at())
                    &&& final(self).at() == old(self).at() + 1
                },
                Err(error) => old(self).stream().consume(old(self).at(), token@) == Err::<
                    int,
                    ErrorView,
                >(error@),
            },
    {
        match self.expect(token) {
            Ok(()) => {},
            Err(error) => {
                return Err(error);
            },
        }
        self.next()
    }

    /// Whether the current token starts on a later line than the one before it ends on.
    pub fn on_new_line(&self) -> (r: bool)
        requires
            self.wf(),
        ensures
            r == self.stream().on_new_line(self.at()),
    {
        return self.current.position.start.line > self.previous.position.end.line;
    }

    /// Whether a statement may end before the current token.
    pub fn is_statement_separator(&self) -> (r: bool)
        requires
            self.wf(),
        ensures
            r == self.stream().statement_separator(self.at()),
    {
        if matches!(self.current.token, Token::Semicolon) {
            return true;
        } else if self.on_new_line() || matches!(self.current.token, Token::EOF) {
            return true;
        } else {
            return false;
        }
    }

    /// Ends a statement before the current token: a semicolon is passed over.
    #[verifier::rlimit(60)]
    pub fn consume_statement_separator(&mut self) -> (r: Result<(), Error>)
        requires
            old(self).wf(),
        ensures
            final(self).wf(),
            final(self).source() == old(self).source(),
            match r {
                Ok(()) => {
                    &&& old(self).stream().end_statement(old(self).at()) == Ok::<int, ErrorView>(
                        final(self).at(),
                    )
                    &&& old(self).at() <= final(self).at()
                },
                Err(error) => old(self).stream().end_statement(old(self).at()) == Err::<
                    int,
                    ErrorView,
                >(error@),
            },
    {
        if self.is_statement_separator() {
            if matches!(self.current.token, Token::Semicolon) {
                return self.next();
            }
            return Ok(());
        } else {
            return Err(self.unexpected("statement separator"));
        }
    }

    /// Whether the current token is a comma or stands on a new line.
    pub fn is_expression_separator(&self) -> (r: bool)
        requires
            self.wf(),
        ensures
            r == self.stream().expression_separator(self.at()),
    {
        if matches!(self.current.token, Token::Comma) {
            return true;
        } else if self.on_new_line() {
            return true;
        }
        return false;
    }

    /// Ends an element of a list before the current token: a comma is passed over; a new line
    /// or the end will do as well.
    #[verifier::rlimit(60)]
    pub fn consume_expression_separator(&mut self) -> (r: Result<(), Error>)
        requires
            old(self).wf(),
        ensures
            final(self).wf(),
            final(self).source() == old(self).source(),
            match r {
                Ok(()) => {
                    &&& old(self).stream().end_element(old(self).at()) == Ok::<int, ErrorView>(
                        final(self).at(),
                    )
                    &&& old(self).at() <= final(self).at()
                },
                Err(error) => old(self).stream().end_element(old(self).at()) == Err::<
                    int,
                    ErrorView,
                >(error@),
            },
    {
        if matches!(self.current.token, Token::Comma) {
            return self.next();
        } else if self.on_new_line() || matches!(self.current.token, Token::EOF) {
            return Ok(());
        }
        return Err(self.unexpected("expression separator"));
    }

    /// The name of the current token, an identifier.
    pub fn get_identifier_name(&self) -> (r: Result<String, Error>)
        requires
            self.wf(),
        ensures
            match r {
                Ok(name) => self.stream().identifier(self.at()) == Ok::<Seq<char>, ErrorView>(
                    name@,
                ),
                Err(error) => self.stream().identifier(self.at()) == Err::<
                    Seq<char>,
                    ErrorView,
                >(error@),
            },
    {
        if let Token::Identifier(identifier) = &self.current.token {
            return Ok(identifier.clone());
        } else {
            return Err(self.unexpected("identifier"));
        }
    }
}

} // verus!
