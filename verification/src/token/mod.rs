//! Tokens and their source positions.
use vstd::prelude::*;
use vstd::string::StringExecFns;

pub mod position;
pub mod text;

pub use position::{Position, Span};

verus! {

/// A token together with the span of source it was read from.
#[derive(Debug, PartialEq)]
pub struct TokenInfo {
    pub token: Token,
    pub position: Span,
}

/// The mathematical value of a [`TokenInfo`].
pub struct TokenInfoView {
    pub token: TokenView,
    pub position: Span,
}

impl View for TokenInfo {
    type V = TokenInfoView;

    open spec fn view(&self) -> TokenInfoView {
        TokenInfoView { token: self.token@, position: self.position }
    }
}

impl TokenInfoView {
    /// The end-of-input token at the origin, which fills a slot that holds no token yet.
    pub open spec fn blank() -> TokenInfoView {
        TokenInfoView {
            token: TokenView::EOF,
            position: Span { start: Position::origin(), end: Position::origin() },
        }
    }
}

impl Clone for TokenInfo {
    fn clone(&self) -> (r: Self)
        ensures
            r@ == self@,
    {
        TokenInfo { token: self.token.clone(), position: self.position }
    }
}

impl TokenInfo {
    pub fn new() -> (r: Self)
        ensures
            r@ == TokenInfoView::blank(),
    {
        Self { token: Token::EOF, position: Span::new() }
    }

    pub fn token(&self) -> (r: Token)
        ensures
            r@ == self@.token,
    {
        self.token.clone()
    }

    pub fn position(&self) -> (r: Span)
        ensures
            r == self@.position,
    {
        self.position
    }
}

#[derive(Debug, PartialEq)]
pub enum Token {
    Illegal,
    EOF,
    LineComment(String),
    BlockComment(String),
    /* Literals */
    /// name, main, value
    Identifier(String),
    /// 12345
    Integer(String),
    /// 3.14159265359
    Float(String),
    /// "Hello World"
    String(String),
    /* Operators */
    /// :=
    Declare,
    /// =
    Assign,
    /// .
    Dot,
    /// +
    Plus,
    /// -
    Minus,
    /// *
    Asterisk,
    /// /
    Slash,
    /// %
    Percent,
    /// !
    ExclamationMark,
    /// ==
    Equal,
    /// !=
    NotEqual,
    /// <
    LessThan,
    /// \>
    GreaterThan,
    /* Delimiters */
    /// ,
    Comma,
    /// :
    Colon,
    /// ;
    Semicolon,
    /// (
    LeftParenthesis,
    /// )
    RightParenthesis,
    /// [
    LeftBracket,
    /// ]
    RightBracket,
    /// {
    LeftBrace,
    /// }
    RightBrace,
    /* Keywords */
    /// true
    True,
    /// false
    False,
    /// mut
    Mutable,
    /// fn
    Function,
    /// return
    Return,
}

/// The mathematical value of a [`Token`]: the same variants, with texts as sequences of characters.
pub enum TokenView {
    Illegal,
    EOF,
    LineComment(Seq<char>),
    BlockComment(Seq<char>),
    Identifier(Seq<char>),
    Integer(Seq<char>),
    Float(Seq<char>),
    String(Seq<char>),
    Declare,
    Assign,
    Dot,
    Plus,
    Minus,
    Asterisk,
    Slash,
    Percent,
    ExclamationMark,
    Equal,
    NotEqual,
    LessThan,
    GreaterThan,
    Comma,
    Colon,
    Semicolon,
    LeftParenthesis,
    RightParenthesis,
    LeftBracket,
    RightBracket,
    LeftBrace,
    RightBrace,
    True,
    False,
    Mutable,
    Function,
    Return,
}

impl View for Token {
    type V = TokenView;

    open spec fn view(&self) -> TokenView {
        match self {
            Token::Illegal => TokenView::Illegal,
            Token::EOF => TokenView::EOF,
            Token::LineComment(s) => TokenView::LineComment(s@),
            Token::BlockComment(s) => TokenView::BlockComment(s@),
            Token::Identifier(s) => TokenView::Identifier(s@),
            Token::Integer(s) => TokenView::Integer(s@),
            Token::Float(s) => TokenView::Float(s@),
            Token::String(s) => TokenView::String(s@),
            Token::Declare => TokenView::Declare,
            Token::Assign => TokenView::Assign,
            Token::Dot => TokenView::Dot,
            Token::Plus => TokenView::Plus,
            Token::Minus => TokenView::Minus,
            Token::Asterisk => TokenView::Asterisk,
            Token::Slash => TokenView::Slash,
            Token::Percent => TokenView::Percent,
            Token::ExclamationMark => TokenView::ExclamationMark,
            Token::Equal => TokenView::Equal,
            Token::NotEqual => TokenView::NotEqual,
            Token::LessThan => TokenView::LessThan,
            Token::GreaterThan => TokenView::GreaterThan,
            Token::Comma => TokenView::Comma,
            Token::Colon => TokenView::Colon,
            Token::Semicolon => TokenView::Semicolon,
            Token::LeftParenthesis => TokenView::LeftParenthesis,
            Token::RightParenthesis => TokenView::RightParenthesis,
            Token::LeftBracket => TokenView::LeftBracket,
            Token::RightBracket => TokenView::RightBracket,
            Token::LeftBrace => TokenView::LeftBrace,
            Token::RightBrace => TokenView::RightBrace,
            Token::True => TokenView::True,
            Token::False => TokenView::False,
            Token::Mutable => TokenView::Mutable,
            Token::Function => TokenView::Function,
            Token::Return => TokenView::Return,
        }
    }
}

impl TokenView {
    /// The text a token is written as in a source.
    pub open spec fn literal(self) -> Seq<char> {
        match self {
            TokenView::Illegal => "ILLEGAL"@,
            TokenView::EOF => "ILLEGAL"@,
            TokenView::LineComment(text) => "//"@ + text,
            TokenView::BlockComment(text) => "/*"@ + text + "*/"@,
            TokenView::Identifier(name) => name,
            TokenView::Integer(digits) => digits,
            TokenView::Float(digits) => digits,
            TokenView::String(contents) => "\""@ + contents + "\""@,
            TokenView::Declare => ":="@,
            TokenView::Assign => "="@,
            TokenView::Dot => "."@,
            TokenView::Plus => "+"@,
            TokenView::Minus => "-"@,
            TokenView::Asterisk => "*"@,
            TokenView::Slash => "/"@,
            TokenView::Percent => "%"@,
            TokenView::ExclamationMark => "!"@,
            TokenView::Equal => "=="@,
            TokenView::NotEqual => "!="@,
            TokenView::LessThan => "<"@,
            TokenView::GreaterThan => ">"@,
            TokenView::Comma => ","@,
            TokenView::Colon => ":"@,
            TokenView::Semicolon => ";"@,
            TokenView::LeftParenthesis => "("@,
            TokenView::RightParenthesis => ")"@,
            TokenView::LeftBracket => "["@,
            TokenView::RightBracket => "]"@,
            TokenView::LeftBrace => "{"@,
            TokenView::RightBrace => "}"@,
            TokenView::True => "true"@,
            TokenView::False => "false"@,
            TokenView::Mutable => "mut"@,
            TokenView::Function => "fn"@,
            TokenView::Return => "return"@,
        }
    }

    /// The keyword that is written as `name`, if there is one.
    pub open spec fn keyword(name: Seq<char>) -> Option<TokenView> {
        if name == "true"@ {
            Some(TokenView::True)
        } else if name == "false"@ {
            Some(TokenView::False)
        } else if name == "mut"@ {
            Some(TokenView::Mutable)
        } else if name == "fn"@ {
            Some(TokenView::Function)
        } else if name == "return"@ {
            Some(TokenView::Return)
        } else {
            None
        }
    }
}

impl Clone for Token {
    fn clone(&self) -> (r: Self)
        ensures
            r@ == self@,
    {
        match self {
            Token::Illegal => Token::Illegal,
            Token::EOF => Token::EOF,
            Token::LineComment(s) => Token::LineComment(s.clone()),
            Token::BlockComment(s) => Token::BlockComment(s.clone()),
            Token::Identifier(s) => Token::Identifier(s.clone()),
            Token::Integer(s) => Token::Integer(s.clone()),
            Token::Float(s) => Token::Float(s.clone()),
            Token::String(s) => Token::String(s.clone()),
            Token::Declare => Token::Declare,
            Token::Assign => Token::Assign,
            Token::Dot => Token::Dot,
            Token::Plus => Token::Plus,
            Token::Minus => Token::Minus,
            Token::Asterisk => Token::Asterisk,
            Token::Slash => Token::Slash,
            Token::Percent => Token::Percent,
            Token::ExclamationMark => Token::ExclamationMark,
            Token::Equal => Token::Equal,
            Token::NotEqual => Token::NotEqual,
            Token::LessThan => Token::LessThan,
            Token::GreaterThan => Token::GreaterThan,
            Token::Comma => Token::Comma,
            Token::Colon => Token::Colon,
            Token::Semicolon => Token::Semicolon,
            Token::LeftParenthesis => Token::LeftParenthesis,
            Token::RightParenthesis => Token::RightParenthesis,
            Token::LeftBracket => Token::LeftBracket,
            Token::RightBracket => Token::RightBracket,
            Token::LeftBrace => Token::LeftBrace,
            Token::RightBrace => Token::RightBrace,
            Token::True => Token::True,
            Token::False => Token::False,
            Token::Mutable => Token::Mutable,
            Token::Function => Token::Function,
            Token::Return => Token::Return,
        }
    }
}

impl Token {
    /// The keyword token that is written as `name`, if `name` is a keyword.
    pub fn match_keyword(name: &str) -> (r: Option<Token>)
        ensures
            match r {
                Some(token) => TokenView::keyword(name@) == Some(token@),
                None => TokenView::keyword(name@).is_none(),
            },
    {
        if text::same_text(name, "true") {
            Some(Token::True)
        } else if text::same_text(name, "false") {
            Some(Token::False)
        } else if text::same_text(name, "mut") {
            Some(Token::Mutable)
        } else if text::same_text(name, "fn") {
            Some(Token::Function)
        } else if text::same_text(name, "return") {
            Some(Token::Return)
        } else {
            None
        }
    }

    /// Whether the two tokens are the same variant with the same text.
    pub fn same(&self, other: &Token) -> (r: bool)
        ensures
            r == (self@ == other@),
    {
        match (self, other) {
            (Token::Illegal, Token::Illegal) => true,
            (Token::EOF, Token::EOF) => true,
            (Token::LineComment(a), Token::LineComment(b)) => *a == *b,
            (Token::BlockComment(a), Token::BlockComment(b)) => *a == *b,
            (Token::Identifier(a), Token::Identifier(b)) => *a == *b,
            (Token::Integer(a), Token::Integer(b)) => *a == *b,
            (Token::Float(a), Token::Float(b)) => *a == *b,
            (Token::String(a), Token::String(b)) => *a == *b,
            (Token::Declare, Token::Declare) => true,
            (Token::Assign, Token::Assign) => true,
            (Token::Dot, Token::Dot) => true,
            (Token::Plus, Token::Plus) => true,
            (Token::Minus, Token::Minus) => true,
            (Token::Asterisk, Token::Asterisk) => true,
            (Token::Slash, Token::Slash) => true,
            (Token::Percent, Token::Percent) => true,
            (Token::ExclamationMark, Token::ExclamationMark) => true,
            (Token::Equal, Token::Equal) => true,
            (Token::NotEqual, Token::NotEqual) => true,
            (Token::LessThan, Token::LessThan) => true,
            (Token::GreaterThan, Token::GreaterThan) => true,
            (Token::Comma, Token::Comma) => true,
            (Token::Colon, Token::Colon) => true,
            (Token::Semicolon, Token::Semicolon) => true,
            (Token::LeftParenthesis, Token::LeftParenthesis) => true,
            (Token::RightParenthesis, Token::RightParenthesis) => true,
            (Token::LeftBracket, Token::LeftBracket) => true,
            (Token::RightBracket, Token::RightBracket) => true,
            (Token::LeftBrace, Token::LeftBrace) => true,
            (Token::RightBrace, Token::RightBrace) => true,
            (Token::True, Token::True) => true,
            (Token::False, Token::False) => true,
            (Token::Mutable, Token::Mutable) => true,
            (Token::Function, Token::Function) => true,
            (Token::Return, Token::Return) => true,
            _ => false,
        }
    }

    /// The text the token is written as in a source.
    pub fn to_string(&self) -> (s: String)
        ensures
            s@ == self@.literal(),
    {
        match self {
            Token::Illegal => String::from_str("ILLEGAL"),
            Token::EOF => String::from_str("ILLEGAL"),
            Token::LineComment(comment) => {
                let mut s = String::from_str("//");
                s.append(comment.as_str());
                s
            },
            Token::BlockComment(comment) => text::wrap("/*", comment.as_str(), "*/"),
            Token::Identifier(name) => name.clone(),
            Token::Integer(integer) => integer.clone(),
            Token::Float(float) => float.clone(),
            Token::String(string) => text::wrap("\"", string.as_str(), "\""),
            Token::Declare => String::from_str(":="),
            Token::Assign => String::from_str("="),
            Token::Dot => String::from_str("."),
            Token::Plus => String::from_str("+"),
            Token::Minus => String::from_str("-"),
            Token::Asterisk => String::from_str("*"),
            Token::Slash => String::from_str("/"),
            Token::Percent => String::from_str("%"),
            Token::ExclamationMark => String::from_str("!"),
            Token::Equal => String::from_str("=="),
            Token::NotEqual => String::from_str("!="),
            Token::LessThan => String::from_str("<"),
            Token::GreaterThan => String::from_str(">"),
            Token::Comma => String::from_str(","),
            Token::Colon => String::from_str(":"),
            Token::Semicolon => String::from_str(";"),
            Token::LeftParenthesis => String::from_str("("),
            Token::RightParenthesis => String::from_str(")"),
            Token::LeftBracket => String::from_str("["),
            Token::RightBracket => String::from_str("]"),
            Token::LeftBrace => String::from_str("{"),
            Token::RightBrace => String::from_str("}"),
            Token::True => String::from_str("true"),
            Token::False => String::from_str("false"),
            Token::Mutable => String::from_str("mut"),
            Token::Function => String::from_str("fn"),
            Token::Return => String::from_str("return"),
        }
    }
}

} // verus!
