//! How strongly the operators bind.
use vstd::prelude::*;

use crate::token::{Token, TokenView};

verus! {

/// The binding strengths, from the weakest to the strongest.
#[derive(Clone, Copy, Debug, PartialEq, Eq, PartialOrd, Structural)]
pub enum Precedence {
    Lowest,
    /// `==` and `!=`
    Equal,
    /// `<` and `>`
    LessGreater,
    /// `+` and `-`
    Sum,
    /// `*`, `/` and `%`
    Product,
    /// A unary `-` or `!`
    Prefix,
    Call,
    Index,
}

impl Precedence {
    /// The place of the binding strength in the order: 0 for the weakest.
    pub open spec fn level(self) -> nat {
        match self {
            Precedence::Lowest => 0,
            Precedence::Equal => 1,
            Precedence::LessGreater => 2,
            Precedence::Sum => 3,
            Precedence::Product => 4,
            Precedence::Prefix => 5,
            Precedence::Call => 6,
            Precedence::Index => 7,
        }
    }

    /// The binding strength of a token where it stands between two operands.
    pub open spec fn of_token(token: TokenView) -> Precedence {
        match token {
            TokenView::Equal => Precedence::Equal,
            TokenView::NotEqual => Precedence::Equal,
            TokenView::LessThan => Precedence::LessGreater,
            TokenView::GreaterThan => Precedence::LessGreater,
            TokenView::Plus => Precedence::Sum,
            TokenView::Minus => Precedence::Sum,
            TokenView::Asterisk => Precedence::Product,
            TokenView::Slash => Precedence::Product,
            TokenView::Percent => Precedence::Product,
            TokenView::LeftParenthesis => Precedence::Call,
            TokenView::LeftBracket => Precedence::Index,
            _ => Precedence::Lowest,
        }
    }

    pub fn of(token: &Token) -> (p: Precedence)
        ensures
            p == Precedence::of_token(token@),
    {
        match token {
            Token::Equal => Precedence::Equal,
            Token::NotEqual => Precedence::Equal,
            Token::LessThan => Precedence::LessGreater,
            Token::GreaterThan => Precedence::LessGreater,
            Token::Plus => Precedence::Sum,
            Token::Minus => Precedence::Sum,
            Token::Asterisk => Precedence::Product,
            Token::Slash => Precedence::Product,
            Token::Percent => Precedence::Product,
            Token::LeftParenthesis => Precedence::Call,
            Token::LeftBracket => Precedence::Index,
            _ => Precedence::Lowest,
        }
    }

    /// The place of the binding strength in the order: 0 for the weakest.
    pub fn rank(self) -> (r: u8)
        ensures
            r == self.level(),
    {
        match self {
            Precedence::Lowest => 0,
            Precedence::Equal => 1,
            Precedence::LessGreater => 2,
            Precedence::Sum => 3,
            Precedence::Product => 4,
            Precedence::Prefix => 5,
            Precedence::Call => 6,
            Precedence::Index => 7,
        }
    }

    /// Whether `self` binds more weakly than `other`.
    pub fn weaker_than(self, other: Precedence) -> (r: bool)
        ensures
            r == (self.level() < other.level()),
    {
        self.rank() < other.rank()
    }
}

} // verus!
