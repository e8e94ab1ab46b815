//! The tokens of a source, as one value.
use vstd::prelude::*;
use vstd::utf8::encode_utf8;

use crate::lexer::error::Error;
use crate::lexer::laws::lemma_lex_moves;
use crate::lexer::rules::{lex, Scanned};
use crate::token::{Span, TokenInfoView, TokenView};

verus! {

/// How the tokens of a source end.
pub enum Ending {
    /// With the end of the source, at this span.
    Eof(Span),
    /// With a token that cannot be read.
    Failure(Error),
}

/// The tokens of a source: those that are read before its end or before the first that cannot
/// be read, none of them `EOF`, and how they end.
pub struct Stream {
    pub tokens: Seq<TokenInfoView>,
    pub end: Ending,
}

/// The tokens that are read from index `i` of `src` on. Reading a token other than `EOF` moves
/// on within the source (see [`lemma_stream_step`]); the stream is cut where it would not.
pub open spec fn stream_from(src: Seq<char>, i: int) -> Stream
    decreases src.len() - i,
{
    match lex(src, i) {
        Scanned::Token { token, span, next } => {
            if token == TokenView::EOF || next <= i || i < 0 || next > src.len() {
                Stream { tokens: Seq::empty(), end: Ending::Eof(span) }
            } else {
                let rest = stream_from(src, next);
                Stream {
                    tokens: seq![TokenInfoView { token, position: span }] + rest.tokens,
                    end: rest.end,
                }
            }
        },
        Scanned::UnexpectedEof { position } => Stream {
            tokens: Seq::empty(),
            end: Ending::Failure(Error::UnexpectedEOF { position }),
        },
    }
}

/// How the tokens from index `i` of `src` on follow from reading the first of them.
pub proof fn lemma_stream_step(src: Seq<char>, i: int)
    requires
        0 <= i <= src.len(),
        encode_utf8(src).len() <= usize::MAX,
    ensures
        match lex(src, i) {
            Scanned::Token { token, span, next } => {
                if token == TokenView::EOF {
                    &&& stream_from(src, i) == (Stream {
                        tokens: Seq::empty(),
                        end: Ending::Eof(span),
                    })
                    &&& next == src.len()
                    &&& stream_from(src, next) == stream_from(src, i)
                } else {
                    &&& i < next <= src.len()
                    &&& stream_from(src, i).tokens == seq![TokenInfoView { token, position: span }]
                        + stream_from(src, next).tokens
                    &&& stream_from(src, i).end == stream_from(src, next).end
                }
            },
            Scanned::UnexpectedEof { position } => stream_from(src, i) == (Stream {
                tokens: Seq::empty(),
                end: Ending::Failure(Error::UnexpectedEOF { position }),
            }),
        },
{
    lemma_lex_moves(src, i);
}

/// The tokens of a source.
pub open spec fn stream_of(src: Seq<char>) -> Stream {
    stream_from(src, 0)
}

} // verus!
