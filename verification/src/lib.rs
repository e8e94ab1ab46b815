//! A small expression-oriented language front end: a position-tracking
//! lexer, a precedence-climbing parser and a layout-preserving formatter.
use vstd::prelude::*;

pub mod ast;
pub mod fmt;
pub mod lexer;
pub mod parser;
pub mod roundtrip;
pub mod std_specs;
pub mod token;

pub use lexer::Lexer;
pub use parser::Parser;

use ast::view::StatementView;
use ast::File;
use fmt::render::file_text;
use fmt::{Format, Formatter};
use lexer::laws::lemma_whole;
use crate::lexer::stream::{lemma_stream_step, stream_from, stream_of, Ending};
use parser::ErrorView;
use token::{TokenInfo, TokenInfoView};

verus! {

/// The values of a list of tokens.
pub open spec fn tokens_view(tokens: Seq<TokenInfo>) -> Seq<TokenInfoView> {
    Seq::new(tokens.len(), |i: int| tokens[i]@)
}

/// Reads all the tokens of a source, up to its end: each token with its span, `EOF` left out.
/// Fails with the error of the first token that cannot be read.
#[verifier::rlimit(60)]
pub fn tokenize(source: &str) -> (r: Result<Vec<TokenInfo>, lexer::Error>)
    ensures
        match r {
            Ok(tokens) => {
                &&& stream_of(source@).tokens == tokens_view(tokens@)
                &&& stream_of(source@).end is Eof
            },
            Err(error) => stream_of(source@).end == Ending::Failure(error),
        },
{
    let mut lexer = Lexer::new(source);
    let mut tokens: Vec<TokenInfo> = Vec::new();
    let ghost s = stream_of(source@);
    proof {
        lexer.lemma_wf();
        assert(s.tokens.skip(0) =~= s.tokens);
        assert(tokens_view(tokens@) =~= s.tokens.take(0));
    }
    loop
        invariant
            lexer.wf(),
            lexer.source() == source@,
            s == stream_of(source@),
            0 <= lexer.index() <= source@.len(),
            tokens.len() <= s.tokens.len(),
            tokens_view(tokens@) == s.tokens.take(tokens.len() as int),
            stream_from(source@, lexer.index()) == s.drop(tokens.len() as int),
        decreases source@.len() - lexer.index(),
    {
        proof {
            lexer.lemma_wf();
            lemma_whole(source@);
            lemma_stream_step(source@, lexer.index());
        }
        let ghost count = tokens.len() as int;
        match lexer.next() {
            Ok(token) => {
                if matches!(token, token::Token::EOF) {
                    proof {
                        assert(s.tokens.take(count) =~= s.tokens);
                    }
                    return Ok(tokens);
                }
                let position = lexer.position();
                let info = TokenInfo { token, position };
                tokens.push(info);
                proof {
                    lexer.lemma_wf();
                    let rest = stream_from(source@, lexer.index()).tokens;
                    let whole = s.drop(count).tokens;
                    assert(whole == seq![info@] + rest);
                    assert(whole.len() == 1 + rest.len());
                    assert(whole[0] == info@);
                    assert(s.tokens[count] == info@);
                    assert forall|t: int| 0 <= t < rest.len() implies rest[t] == s.tokens.skip(
                        count + 1,
                    )[t] by {
                        assert(whole[t + 1] == rest[t]);
                    }
                    assert(rest =~= s.tokens.skip(count + 1));
                    assert(tokens_view(tokens@) =~= s.tokens.take(count + 1));
                }
            },
            Err(error) => {
                return Err(error);
            },
        }
    }
}

/// What a parse gave, as a value: the statements of the file, or the error.
pub open spec fn outcome(r: Result<File, parser::Error>) -> Result<Seq<StatementView>, ErrorView> {
    match r {
        Ok(file) => Ok(file@),
        Err(error) => Err(error@),
    }
}

/// Parses a source: its statements in their order, or the first error. Nothing is kept of a
/// source with an error.
pub fn parse(source: &str) -> (r: Result<File, parser::Error>)
    ensures
        outcome(r) == parser::grammar::parse(source@),
{
    let mut parser = Parser::new(source);
    parser.parse()
}

/// Renders a file as its canonical text, with `indent_unit` for each level of indentation.
pub fn format(file: &File, indent_unit: &str, verbose: bool) -> (text: String)
    ensures
        text@ == file_text(file@, indent_unit@, 0),
{
    let mut fmt = Formatter::new(indent_unit, verbose);
    file.fmt(&mut fmt)
}

/// Parsing is deterministic: whatever two parses of the same source give, a file or an error,
/// the two have the same value.
pub proof fn lemma_parse_deterministic(
    source: Seq<char>,
    first: Result<File, parser::Error>,
    second: Result<File, parser::Error>,
)
    requires
        outcome(first) == parser::grammar::parse(source),
        outcome(second) == parser::grammar::parse(source),
    ensures
        outcome(first) == outcome(second),
        first is Ok <==> second is Ok,
        first is Ok ==> first.unwrap()@ == second.unwrap()@,
{
}

} // verus!
