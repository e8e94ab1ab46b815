//! What can go wrong while reading a token.
use vstd::prelude::*;
use vstd::string::StringExecFns;

use crate::token::Position;

verus! {

#[derive(Clone, Copy, Debug, PartialEq, Eq, Structural)]
pub enum Error {
    /// The source ended inside a string or a block comment; `position` is the end of the source.
    UnexpectedEOF { position: Position },
}

impl Error {
    /// The error as it is shown.
    pub open spec fn text(self) -> Seq<char> {
        match self {
            Error::UnexpectedEOF { position } => "Unexpected EOF @ "@ + position.text(),
        }
    }

    /// The error as it is shown.
    pub fn to_string(&self) -> (text: String)
        ensures
            text@ == self.text(),
    {
        match self {
            Error::UnexpectedEOF { position } => {
                let mut text = String::from_str("Unexpected EOF @ ");
                text.append(position.to_string().as_str());
                text
            },
        }
    }
}

} // verus!
