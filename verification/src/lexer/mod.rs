//! The lexer: source text to tokens.
use vstd::prelude::*;

pub mod cursor;
pub mod error;
pub mod laws;
pub mod reread;
pub mod rules;
pub mod sound;
pub mod stream;

pub use error::Error;

use crate::token::{Position, Span, Token, TokenView};
use cursor::{position_at, Cursor, END};
use laws::{faithful, lemma_span_fidelity, lemma_whole, written};
use rules::{
    block_comment, block_end, digit, lemma_block_end_closes, lemma_block_end_nested, letter, lex,
    line_comment, number, run_end, string, token_at, whitespace, word, Run, Scanned,
};

verus! {

/// Whether `c` is a letter: an underscore, a letter of the basic Latin alphabet, or an
/// alphabetic character beyond ASCII. Within ASCII the answer is computed here, so that it is
/// known for every character that the formatter writes between tokens.
pub fn is_letter(c: char) -> (r: bool)
    ensures
        r == letter(c),
{
    c == '_' || ('a' <= c && c <= 'z') || ('A' <= c && c <= 'Z') || (c > '\x7f'
        && c.is_alphabetic())
}

/// Whether `c` is a decimal digit.
pub fn is_digit(c: char) -> (r: bool)
    ensures
        r == digit(c),
{
    '0' <= c && c <= '9'
}

/// Whether `c` is a space, tab, line feed, form feed or carriage return.
pub fn is_whitespace(c: char) -> (r: bool)
    ensures
        r == whitespace(c),
{
    c == ' ' || c == '\t' || c == '\n' || c == '\x0C' || c == '\r'
}

impl Run {
    /// Whether `c` belongs to the run.
    pub fn has(self, c: char) -> (r: bool)
        ensures
            r == self.holds(c),
    {
        match self {
            Run::Blank => is_whitespace(c),
            Run::Word => is_letter(c) || is_digit(c),
            Run::Digits => is_digit(c),
            Run::Line => c != '\n',
            Run::Quoted => c != '"',
        }
    }
}

/// Reads a source token by token.
#[derive(Clone, Debug)]
pub struct Lexer {
    cursor: Cursor,
    token: Token,
    position: Span,
}

impl Lexer {
    /// The characters of the source that the lexer reads.
    pub closed spec fn source(&self) -> Seq<char> {
        self.cursor.source()
    }

    /// The index in the source at which the next token is looked for.
    pub closed spec fn index(&self) -> int {
        self.cursor.index()
    }

    /// The lexer's invariant.
    pub closed spec fn wf(&self) -> bool {
        self.cursor.wf()
    }

    /// The token that was read last; `EOF` before the first.
    pub closed spec fn last_token(&self) -> TokenView {
        self.token@
    }

    /// The span of the token that was read last.
    pub closed spec fn last_span(&self) -> Span {
        self.position
    }

    /// A well-formed lexer stands in its source or at its end, and the source fits in memory.
    pub proof fn lemma_wf(&self)
        requires
            self.wf(),
        ensures
            0 <= self.index() <= self.source().len(),
            cursor::offset_at(self.source(), self.source().len() as int) <= usize::MAX,
            self.source().len() < usize::MAX,
    {
        self.cursor.lemma_wf();
    }

    pub fn new(source: &str) -> (lexer: Self)
        ensures
            lexer.wf(),
            lexer.source() == source@,
            lexer.index() == 0,
            lexer.last_token() == TokenView::EOF,
            lexer.last_span() == (Span { start: Position::origin(), end: Position::origin() }),
    {
        Lexer { cursor: Cursor::new(source), token: Token::EOF, position: Span::new() }
    }

    /// The token that was read last.
    pub fn token(&self) -> (r: Token)
        ensures
            r@ == self.last_token(),
    {
        self.token.clone()
    }

    /// The span of the token that was read last.
    pub fn position(&self) -> (r: Span)
        ensures
            r == self.last_span(),
    {
        self.position
    }

    /// Reads the next token, passing over the whitespace before it. At the end of the source the
    /// token is `EOF`. Fails if the source ends inside a string or a block comment; the lexer
    /// then stands at the end of the source.
    #[verifier::rlimit(60)]
    pub fn next(&mut self) -> (r: Result<Token, Error>)
        requires
            old(self).wf(),
        ensures
            final(self).wf(),
            final(self).source() == old(self).source(),
            match r {
                Ok(token) => {
                    &&& lex(old(self).source(), old(self).index()) == (Scanned::Token {
                        token: token@,
                        span: final(self).last_span(),
                        next: final(self).index(),
                    })
                    &&& final(self).last_token() == token@
                    &&& written(token@) ==> faithful(
                        old(self).source(),
                        token@,
                        final(self).last_span().start.offset as int,
                        final(self).last_span().end.offset as int,
                    )
                },
                Err(Error::UnexpectedEOF { position }) => {
                    &&& lex(old(self).source(), old(self).index()) == (Scanned::UnexpectedEof {
                        position,
                    })
                    &&& final(self).index() == old(self).source().len()
                    &&& final(self).last_token() == old(self).last_token()
                    &&& final(self).last_span() == (Span {
                        start: position_at(
                            old(self).source(),
                            run_end(old(self).source(), old(self).index(), Run::Blank),
                        ),
                        end: old(self).last_span().end,
                    })
                },
            },
    {
        proof {
            self.cursor.lemma_wf();
            lemma_whole(self.source());
            lemma_span_fidelity(self.source(), self.index());
        }
        self.skip_whitespace();
        proof {
            self.cursor.lemma_wf();
            reveal(token_at);
        }
        self.position.start = self.cursor.position();
        if self.cursor.at_end() {
            self.token = Token::EOF;
            self.position.end = self.cursor.position();
            return Ok(self.token());
        }
        let c = self.cursor.current();
        let d = self.cursor.peek();
        let token = if c == ':' {
            if d == '=' {
                self.cursor.next();
                Token::Declare
            } else {
                Token::Colon
            }
        } else if c == '.' {
            Token::Dot
        } else if c == '+' {
            Token::Plus
        } else if c == '-' {
            Token::Minus
        } else if c == '*' {
            Token::Asterisk
        } else if c == '/' {
            if d == '/' {
                return self.read_line_comment();
            } else if d == '*' {
                return self.read_block_comment();
            } else {
                Token::Slash
            }
        } else if c == '%' {
            Token::Percent
        } else if c == '!' {
            if d == '=' {
                self.cursor.next();
                Token::NotEqual
            } else {
                Token::ExclamationMark
            }
        } else if c == '=' {
            if d == '=' {
                self.cursor.next();
                Token::Equal
            } else {
                Token::Assign
            }
        } else if c == '<' {
            Token::LessThan
        } else if c == '>' {
            Token::GreaterThan
        } else if c == ',' {
            Token::Comma
        } else if c == ';' {
            Token::Semicolon
        } else if c == '(' {
            Token::LeftParenthesis
        } else if c == ')' {
            Token::RightParenthesis
        } else if c == '[' {
            Token::LeftBracket
        } else if c == ']' {
            Token::RightBracket
        } else if c == '{' {
            Token::LeftBrace
        } else if c == '}' {
            Token::RightBrace
        } else if c == '"' {
            return self.read_string();
        } else if c == END {
            Token::Illegal
        } else if is_letter(c) {
            return self.read_identifier();
        } else if is_digit(c) {
            return self.read_number();
        } else {
            Token::Illegal
        };
        self.token = token;
        self.position.end = self.cursor.position();
        self.cursor.next();
        Ok(self.token())
    }

    /// Reads the run that starts at the current character and appends it to `text`.
    #[verifier::rlimit(60)]
    fn read_run(&mut self, run: Run, text: &mut String)
        requires
            old(self).wf(),
        ensures
            final(self).wf(),
            final(self).source() == old(self).source(),
            final(self).index() == run_end(old(self).source(), old(self).index(), run),
            old(self).index() <= final(self).index() <= old(self).source().len(),
            final(text)@ == old(text)@ + old(self).source().subrange(
                old(self).index(),
                final(self).index(),
            ),
            final(self).token == old(self).token,
            final(self).position == old(self).position,
    {
        proof {
            self.cursor.lemma_wf();
            assert(text@ =~= text@ + self.source().subrange(self.index(), self.index()));
        }
        while !self.cursor.at_end() && run.has(self.cursor.current())
            invariant
                self.wf(),
                self.source() == old(self).source(),
                0 <= old(self).index() <= self.index() <= self.source().len(),
                run_end(self.source(), self.index(), run) == run_end(
                    self.source(),
                    old(self).index(),
                    run,
                ),
                text@ == old(text)@ + self.source().subrange(old(self).index(), self.index()),
                self.token == old(self).token,
                self.position == old(self).position,
            decreases self.source().len() - self.index(),
        {
            let ghost before = self.index();
            text.push(self.cursor.current());
            self.cursor.next();
            proof {
                assert(self.source().subrange(old(self).index(), before + 1)
                    =~= self.source().subrange(old(self).index(), before).push(
                    self.source()[before],
                ));
            }
        }
    }

    /// Reads the identifier or keyword that starts at the current character, a letter.
    #[verifier::rlimit(60)]
    fn read_identifier(&mut self) -> (r: Result<Token, Error>)
        requires
            old(self).wf(),
            old(self).position.start == position_at(old(self).source(), old(self).index()),
        ensures
            final(self).wf(),
            final(self).source() == old(self).source(),
            r is Ok,
            word(old(self).source(), old(self).index()) == (Scanned::Token {
                token: r.unwrap()@,
                span: final(self).position,
                next: final(self).index(),
            }),
            final(self).token@ == r.unwrap()@,
    {
        let mut name = String::new();
        self.read_run(Run::Word, &mut name);
        assert(name@ =~= self.source().subrange(old(self).index(), self.index()));
        self.position.end = self.cursor.position().back(1);
        if let Some(keyword) = Token::match_keyword(name.as_str()) {
            self.token = keyword;
            return Ok(self.token());
        } else {
            self.token = Token::Identifier(name);
            return Ok(self.token());
        }
    }

    /// Reads the number that starts at the current character, a digit.
    #[verifier::rlimit(60)]
    fn read_number(&mut self) -> (r: Result<Token, Error>)
        requires
            old(self).wf(),
            old(self).position.start == position_at(old(self).source(), old(self).index()),
        ensures
            final(self).wf(),
            final(self).source() == old(self).source(),
            r is Ok,
            number(old(self).source(), old(self).index()) == (Scanned::Token {
                token: r.unwrap()@,
                span: final(self).position,
                next: final(self).index(),
            }),
            final(self).token@ == r.unwrap()@,
    {
        let mut number = String::new();
        self.read_run(Run::Digits, &mut number);
        let ghost whole = self.index();
        assert(number@ =~= self.source().subrange(old(self).index(), whole));
        if self.cursor.current() == '.' {
            number.push(self.cursor.current());
            self.cursor.next();
            self.read_run(Run::Digits, &mut number);
            assert(number@ =~= self.source().subrange(old(self).index(), self.index()));
            self.token = Token::Float(number);
        } else {
            self.token = Token::Integer(number);
        }
        self.position.end = self.cursor.position().back(1);
        return Ok(self.token());
    }

    /// Reads the string whose opening quote is the current character.
    #[verifier::rlimit(60)]
    fn read_string(&mut self) -> (r: Result<Token, Error>)
        requires
            old(self).wf(),
            old(self).index() < old(self).source().len(),
            old(self).position.start == position_at(old(self).source(), old(self).index()),
        ensures
            final(self).wf(),
            final(self).source() == old(self).source(),
            match r {
                Ok(token) => {
                    &&& string(old(self).source(), old(self).index()) == (Scanned::Token {
                        token: token@,
                        span: final(self).position,
                        next: final(self).index(),
                    })
                    &&& final(self).token@ == token@
                },
                Err(Error::UnexpectedEOF { position }) => {
                    &&& string(old(self).source(), old(self).index()) == (Scanned::UnexpectedEof {
                        position,
                    })
                    &&& final(self).index() == old(self).source().len()
                    &&& final(self).token == old(self).token
                    &&& final(self).position == old(self).position
                },
            },
    {
        self.cursor.next();  // the opening quote
        let mut string = String::new();
        self.read_run(Run::Quoted, &mut string);
        assert(string@ =~= self.source().subrange(old(self).index() + 1, self.index()));
        if self.cursor.at_end() {
            return Err(Error::UnexpectedEOF { position: self.cursor.position() });
        }
        self.position.end = self.cursor.position();
        self.token = Token::String(string);
        self.cursor.next();  // the closing quote
        return Ok(self.token());
    }

    /// Reads the line comment whose `//` starts at the current character.
    #[verifier::rlimit(60)]
    fn read_line_comment(&mut self) -> (r: Result<Token, Error>)
        requires
            old(self).wf(),
            old(self).index() + 2 <= old(self).source().len(),
            old(self).position.start == position_at(old(self).source(), old(self).index()),
        ensures
            final(self).wf(),
            final(self).source() == old(self).source(),
            r is Ok,
            line_comment(old(self).source(), old(self).index()) == (Scanned::Token {
                token: r.unwrap()@,
                span: final(self).position,
                next: final(self).index(),
            }),
            final(self).token@ == r.unwrap()@,
    {
        self.cursor.skip(2);
        let mut comment = String::new();
        self.read_run(Run::Line, &mut comment);
        assert(comment@ =~= self.source().subrange(old(self).index() + 2, self.index()));
        self.token = Token::LineComment(comment);
        self.position.end = self.cursor.position().back(1);
        return Ok(self.token());
    }

    /// Reads the block comment whose `/*` starts at the current character.
    #[verifier::rlimit(60)]
    fn read_block_comment(&mut self) -> (r: Result<Token, Error>)
        requires
            old(self).wf(),
            old(self).index() + 2 <= old(self).source().len(),
            old(self).position.start == position_at(old(self).source(), old(self).index()),
        ensures
            final(self).wf(),
            final(self).source() == old(self).source(),
            match r {
                Ok(token) => {
                    &&& block_comment(old(self).source(), old(self).index()) == (Scanned::Token {
                        token: token@,
                        span: final(self).position,
                        next: final(self).index(),
                    })
                    &&& final(self).token@ == token@
                },
                Err(Error::UnexpectedEOF { position }) => {
                    &&& block_comment(old(self).source(), old(self).index())
                        == (Scanned::UnexpectedEof { position })
                    &&& final(self).index() == old(self).source().len()
                    &&& final(self).token == old(self).token
                    &&& final(self).position == old(self).position
                },
            },
    {
        self.cursor.skip(2);
        let mut comment = String::new();
        match self.read_block_body(&mut comment) {
            Ok(()) => {
                assert(comment@ =~= self.source().subrange(
                    old(self).index() + 2,
                    self.index() - 2,
                ));
                self.token = Token::BlockComment(comment);
                self.position.end = self.cursor.position().back(1);
                return Ok(self.token());
            },
            Err(e) => {
                return Err(e);
            },
        }
    }

    /// Reads the rest of a block comment, the current character being the first after its `/*`,
    /// through the `*/` that closes it, and appends what stands before that `*/` to `comment`.
    /// A comment nested in it is read in the same way and appended with its `/*` and `*/`.
    #[verifier::rlimit(60)]
    fn read_block_body(&mut self, comment: &mut String) -> (r: Result<(), Error>)
        requires
            old(self).wf(),
        ensures
            final(self).wf(),
            final(self).source() == old(self).source(),
            final(self).token == old(self).token,
            final(self).position == old(self).position,
            match r {
                Ok(()) => {
                    &&& block_end(old(self).source(), old(self).index(), 0) == Some(
                        final(self).index(),
                    )
                    &&& final(comment)@ == old(comment)@ + old(self).source().subrange(
                        old(self).index(),
                        final(self).index() - 2,
                    )
                },
                Err(Error::UnexpectedEOF { position }) => {
                    &&& block_end(old(self).source(), old(self).index(), 0).is_none()
                    &&& position == position_at(
                        old(self).source(),
                        old(self).source().len() as int,
                    )
                    &&& final(self).index() == old(self).source().len()
                },
            },
        decreases old(self).source().len() - old(self).index(),
    {
        let ghost src = self.source();
        let ghost start = self.index();
        proof {
            self.cursor.lemma_wf();
            assert(comment@ =~= comment@ + src.subrange(start, start));
        }
        loop
            invariant
                self.wf(),
                self.source() == src,
                src == old(self).source(),
                start == old(self).index(),
                0 <= start <= self.index() <= src.len(),
                block_end(src, self.index(), 0) == block_end(src, start, 0),
                comment@ == old(comment)@ + src.subrange(start, self.index()),
                self.token == old(self).token,
                self.position == old(self).position,
            decreases src.len() - self.index(),
        {
            let ghost here = self.index();
            if self.cursor.at_end() {
                return Err(Error::UnexpectedEOF { position: self.cursor.position() });
            }
            let c = self.cursor.current();
            let d = self.cursor.peek();
            if c == '*' && d == '/' {
                self.cursor.skip(2);
                return Ok(());
            } else if c == '/' && d == '*' {
                self.cursor.skip(2);
                comment.push('/');
                comment.push('*');
                let inner = self.read_block_body(comment);
                proof {
                    lemma_block_end_nested(src, here + 2, 0, 0);
                }
                match inner {
                    Ok(()) => {
                        comment.push('*');
                        comment.push('/');
                        proof {
                            lemma_block_end_closes(src, here + 2, 0);
                            assert(comment@ =~= old(comment)@ + src.subrange(start, self.index()));
                        }
                    },
                    Err(e) => {
                        return Err(e);
                    },
                }
            } else {
                comment.push(c);
                self.cursor.next();
                proof {
                    assert(src.subrange(start, here + 1) =~= src.subrange(start, here).push(
                        src[here],
                    ));
                }
            }
        }
    }

    /// Passes over the whitespace that starts at the current character.
    fn skip_whitespace(&mut self)
        requires
            old(self).wf(),
        ensures
            final(self).wf(),
            final(self).source() == old(self).source(),
            final(self).index() == run_end(old(self).source(), old(self).index(), Run::Blank),
            final(self).token == old(self).token,
            final(self).position == old(self).position,
    {
        proof {
            self.cursor.lemma_wf();
        }
        while is_whitespace(self.cursor.current())
            invariant
                self.wf(),
                self.source() == old(self).source(),
                0 <= self.index() <= self.source().len(),
                run_end(self.source(), self.index(), Run::Blank) == run_end(
                    self.source(),
                    old(self).index(),
                    Run::Blank,
                ),
                self.token == old(self).token,
                self.position == old(self).position,
            decreases self.source().len() - self.index(),
        {
            self.cursor.next();
        }
    }
}

} // verus!
