//! What can go wrong while parsing.
use vstd::prelude::*;
use vstd::string::StringExecFns;

use crate::lexer;
use crate::token::Span;

verus! {

#[derive(Clone, Debug, PartialEq)]
pub enum Error {
    /// A token could not be read.
    LexerError(lexer::Error),
    /// The token at `position`, rendered as `got`, stands where `want` is needed.
    UnexpectedToken { want: String, got: String, position: Span },
    /// The source ended where more was needed.
    UnexpectedEOF,
}

/// The mathematical value of an [`Error`].
pub enum ErrorView {
    LexerError(lexer::Error),
    UnexpectedToken { want: Seq<char>, got: Seq<char>, position: Span },
    UnexpectedEOF,
}

impl View for Error {
    type V = ErrorView;

    open spec fn view(&self) -> ErrorView {
        match self {
            Error::LexerError(error) => ErrorView::LexerError(*error),
            Error::UnexpectedToken { want, got, position } => ErrorView::UnexpectedToken {
                want: want@,
                got: got@,
                position: *position,
            },
            Error::UnexpectedEOF => ErrorView::UnexpectedEOF,
        }
    }
}

impl ErrorView {
    /// The error as it is shown.
    pub open spec fn text(self) -> Seq<char> {
        match self {
            ErrorView::LexerError(error) => "lexer error: "@ + error.text(),
            ErrorView::UnexpectedToken { want, got, position } => "unexpected token: "@ + got
                + " @ "@ + position.text() + " (expected: "@ + want + ")"@,
            ErrorView::UnexpectedEOF => "unexpected EOF"@,
        }
    }
}

impl Error {
    /// The error as it is shown.
    pub fn to_string(&self) -> (text: String)
        ensures
            text@ == self@.text(),
    {
        match self {
            Error::LexerError(e) => {
                let mut text = String::from_str("lexer error: ");
                text.append(e.to_string().as_str());
                text
            },
            Error::UnexpectedToken { want, got, position } => {
                let mut text = String::from_str("unexpected token: ");
                text.append(got.as_str());
                text.append(" @ ");
                text.append(position.to_string().as_str());
                text.append(" (expected: ");
                text.append(want.as_str());
                text.append(")");
                text
            },
            Error::UnexpectedEOF => String::from_str("unexpected EOF"),
        }
    }
}

} // verus!
