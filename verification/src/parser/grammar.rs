//! The grammar, as functions of the tokens of a source.
//!
//! A parse is stated over the [`Stream`] of a source and an index into it, the index of the
//! current token. Each rule gives the node it reads and the index of the token after it, or
//! the error it stops with.
//!
//! Where a rule reads one node after another, it goes on only if reading the first moved on by
//! a token, and stops with `UnexpectedEOF` otherwise. That keeps the rules well-founded. Reading
//! a node always moves on, so that error is the outcome of no rule: `laws` proves both.
use vstd::prelude::*;

use crate::ast::{
    ExpressionKindView, ExpressionView, FieldView, FunctionTypeView, ParameterView,
    StatementKindView, StatementView, TypeView,
};
use crate::lexer::stream::{stream_of, Ending, Stream};
use crate::parser::error::ErrorView;
use crate::parser::precedence::Precedence;
use crate::token::{Span, TokenInfoView, TokenView};

verus! {

/// A node and the index of the token after it, or an error.
pub type Parsed<T> = Result<(T, int), ErrorView>;

/// The type that `name` names: one of the built-in types, or a type of that name.
pub open spec fn named_type(name: Seq<char>) -> TypeView {
    if name == "bool"@ {
        TypeView::Boolean
    } else if name == "int"@ {
        TypeView::Integer
    } else if name == "float"@ {
        TypeView::Float
    } else if name == "string"@ {
        TypeView::String
    } else {
        TypeView::Name(name)
    }
}

/// Whether `token` is an operator that stands between two operands.
pub open spec fn is_infix(token: TokenView) -> bool {
    token == TokenView::Plus || token == TokenView::Minus || token == TokenView::Asterisk
        || token == TokenView::Slash || token == TokenView::Percent || token == TokenView::Equal
        || token == TokenView::NotEqual || token == TokenView::LessThan || token
        == TokenView::GreaterThan
}

impl Stream {
    /// The token at index `k`. Before the first token and after a token that cannot be read
    /// stands the blank `EOF`; after the last token of a source that ends well, `EOF` at its end.
    pub open spec fn at(self, k: int) -> TokenInfoView {
        if k < 0 {
            TokenInfoView::blank()
        } else if k < self.tokens.len() {
            self.tokens[k]
        } else {
            match self.end {
                Ending::Eof(span) => TokenInfoView { token: TokenView::EOF, position: span },
                Ending::Failure(_) => TokenInfoView::blank(),
            }
        }
    }

    /// The number of tokens from index `k` on.
    pub open spec fn left(self, k: int) -> nat {
        if k < 0 {
            self.tokens.len()
        } else if k < self.tokens.len() {
            (self.tokens.len() - k) as nat
        } else {
            0
        }
    }

    /// The stream without its first `j` tokens.
    pub open spec fn drop(self, j: int) -> Stream {
        Stream { tokens: self.tokens.skip(j), end: self.end }
    }

    /// Whether, with the token at index `k` current, the lookahead has met a token that cannot
    /// be read.
    pub open spec fn failed(self, k: int) -> bool {
        self.end is Failure && k + 2 > self.tokens.len()
    }

    /// The error for the token at index `k` standing where `want` is needed. Where the
    /// lookahead has met a token that cannot be read, that is the error.
    pub open spec fn unexpected(self, k: int, want: Seq<char>) -> ErrorView {
        match self.end {
            Ending::Failure(error) if k + 2 > self.tokens.len() => ErrorView::LexerError(error),
            _ => ErrorView::UnexpectedToken {
                want,
                got: self.at(k).token.literal(),
                position: self.at(k).position,
            },
        }
    }

    /// Moves on from the token at index `k`. This reads the token at index `k + 2` into the
    /// lookahead, and fails if that one cannot be read.
    pub open spec fn advance(self, k: int) -> Result<int, ErrorView> {
        match self.end {
            Ending::Failure(error) if k + 2 >= self.tokens.len() => Err(
                ErrorView::LexerError(error),
            ),
            _ => Ok(k + 1),
        }
    }

    /// Moves on from the token at index `k` if it is `token`.
    pub open spec fn consume(self, k: int, token: TokenView) -> Result<int, ErrorView> {
        if self.at(k).token == token {
            self.advance(k)
        } else {
            Err(self.unexpected(k, token.literal()))
        }
    }

    /// Whether the token at index `k` starts on a later line than the one before it ends on.
    pub open spec fn on_new_line(self, k: int) -> bool {
        self.at(k).position.start.line > self.at(k - 1).position.end.line
    }

    /// Whether a statement may end before the token at index `k`: at a semicolon, at a token on
    /// a new line, or at the end.
    pub open spec fn statement_separator(self, k: int) -> bool {
        self.at(k).token == TokenView::Semicolon || self.on_new_line(k) || self.at(k).token
            == TokenView::EOF
    }

    /// Whether the token at index `k` is a comma or stands on a new line.
    pub open spec fn expression_separator(self, k: int) -> bool {
        self.at(k).token == TokenView::Comma || self.on_new_line(k)
    }

    /// Ends a statement before the token at index `k`: a semicolon is passed over.
    pub open spec fn end_statement(self, k: int) -> Result<int, ErrorView> {
        if self.statement_separator(k) {
            if self.at(k).token == TokenView::Semicolon {
                self.advance(k)
            } else {
                Ok(k)
            }
        } else {
            Err(self.unexpected(k, "statement separator"@))
        }
    }

    /// Ends an element of a list before the token at index `k`: a comma is passed over; a new
    /// line or the end will do as well.
    pub open spec fn end_element(self, k: int) -> Result<int, ErrorView> {
        if self.at(k).token == TokenView::Comma {
            self.advance(k)
        } else if self.on_new_line(k) || self.at(k).token == TokenView::EOF {
            Ok(k)
        } else {
            Err(self.unexpected(k, "expression separator"@))
        }
    }

    /// The name of the identifier at index `k`.
    pub open spec fn identifier(self, k: int) -> Result<Seq<char>, ErrorView> {
        match self.at(k).token {
            TokenView::Identifier(name) => Ok(name),
            _ => Err(self.unexpected(k, "identifier"@)),
        }
    }

    /// An expression of one token, the one at index `k`.
    pub open spec fn leaf(self, k: int, kind: ExpressionKindView, typ: TypeView) -> Parsed<
        ExpressionView,
    > {
        match self.advance(k) {
            Err(error) => Err(error),
            Ok(k1) => Ok((ExpressionView { kind, typ, position: self.at(k).position }, k1)),
        }
    }

    /// An expression that starts at index `k` and whose operators all bind more strongly than
    /// `min`: an operand, then the operators and operands that follow it, folded to the left.
    pub open spec fn expression(self, k: int, min: Precedence) -> Parsed<ExpressionView>
        decreases self.left(k), 3nat,
    {
        match self.prefix(k) {
            Err(error) => Err(error),
            Ok((left, k1)) => {
                if self.left(k1) < self.left(k) {
                    self.climb(k1, min, left)
                } else {
                    Err(ErrorView::UnexpectedEOF)
                }
            },
        }
    }

    /// An operand that starts at index `k`: an identifier, a literal, an expression in
    /// parentheses, or a `-` or `!` before an operand.
    pub open spec fn prefix(self, k: int) -> Parsed<ExpressionView>
        decreases self.left(k), 2nat,
    {
        let info = self.at(k);
        match info.token {
            TokenView::Identifier(name) => self.leaf(
                k,
                ExpressionKindView::Identifier(name),
                TypeView::Unknown,
            ),
            TokenView::Integer(digits) => self.leaf(
                k,
                ExpressionKindView::Integer(digits),
                TypeView::Integer,
            ),
            TokenView::Float(digits) => self.leaf(
                k,
                ExpressionKindView::Float(digits),
                TypeView::Float,
            ),
            TokenView::String(contents) => self.leaf(
                k,
                ExpressionKindView::String(contents),
                TypeView::String,
            ),
            TokenView::True => self.leaf(k, ExpressionKindView::Boolean(true), TypeView::Boolean),
            TokenView::False => self.leaf(
                k,
                ExpressionKindView::Boolean(false),
                TypeView::Boolean,
            ),
            TokenView::LeftParenthesis => match self.advance(k) {
                Err(error) => Err(error),
                Ok(k1) => match self.expression(k1, Precedence::Lowest) {
                    Err(error) => Err(error),
                    Ok((inner, k2)) => match self.consume(k2, TokenView::RightParenthesis) {
                        Err(error) => Err(error),
                        Ok(k3) => Ok(
                            (
                                ExpressionView {
                                    kind: inner.kind,
                                    typ: inner.typ,
                                    position: Span {
                                        start: info.position.start,
                                        end: self.at(k2).position.end,
                                    },
                                },
                                k3,
                            ),
                        ),
                    },
                },
            },
            TokenView::Minus | TokenView::ExclamationMark => match self.advance(k) {
                Err(error) => Err(error),
                Ok(k1) => match self.expression(k1, Precedence::Prefix) {
                    Err(error) => Err(error),
                    Ok((right, k2)) => Ok(
                        (
                            ExpressionView {
                                kind: ExpressionKindView::Prefix {
                                    operator: info.token,
                                    right: Box::new(right),
                                },
                                typ: right.typ,
                                position: Span {
                                    start: info.position.start,
                                    end: right.position.end,
                                },
                            },
                            k2,
                        ),
                    ),
                },
            },
            _ => Err(self.unexpected(k, "start of an expression"@)),
        }
    }

    /// The operand `left` with the operator at index `k` and the operand after it, if an
    /// operator stands there; else `left` as it is.
    pub open spec fn infix(self, k: int, left: ExpressionView) -> Parsed<ExpressionView>
        decreases self.left(k), 1nat,
    {
        let operator = self.at(k).token;
        if is_infix(operator) {
            match self.advance(k) {
                Err(error) => Err(error),
                Ok(k1) => match self.expression(k1, Precedence::of_token(operator)) {
                    Err(error) => Err(error),
                    Ok((right, k2)) => Ok(
                        (
                            ExpressionView {
                                kind: ExpressionKindView::Infix {
                                    left: Box::new(left),
                                    operator,
                                    right: Box::new(right),
                                },
                                typ: TypeView::Unknown,
                                position: Span {
                                    start: left.position.start,
                                    end: right.position.end,
                                },
                            },
                            k2,
                        ),
                    ),
                },
            }
        } else {
            Ok((left, k))
        }
    }

    /// Whether the token at index `k` goes on an expression whose operators all bind more
    /// strongly than `min`: it is an operator that does so, and no statement ends before it.
    pub open spec fn continues(self, k: int, min: Precedence) -> bool {
        &&& !self.statement_separator(k)
        &&& min.level() < Precedence::of_token(self.at(k).token).level()
        &&& is_infix(self.at(k).token)
    }

    /// The operand `left` with the operators from index `k` on that bind more strongly than
    /// `min`, and their operands, folded to the left.
    pub open spec fn climb(self, k: int, min: Precedence, left: ExpressionView) -> Parsed<
        ExpressionView,
    >
        decreases self.left(k), 2nat,
    {
        if self.continues(k, min) {
            match self.infix(k, left) {
                Err(error) => Err(error),
                Ok((folded, k1)) => {
                    if self.left(k1) < self.left(k) {
                        self.climb(k1, min, folded)
                    } else {
                        Err(ErrorView::UnexpectedEOF)
                    }
                },
            }
        } else {
            Ok((left, k))
        }
    }

    /// A type that starts at index `k`.
    pub open spec fn typ(self, k: int) -> Parsed<TypeView>
        decreases self.left(k), 2nat,
    {
        match self.at(k).token {
            TokenView::Identifier(name) => match self.advance(k) {
                Err(error) => Err(error),
                Ok(k1) => Ok((named_type(name), k1)),
            },
            TokenView::LeftParenthesis => match self.tuple_type(k) {
                Err(error) => Err(error),
                Ok((elements, k1)) => Ok((TypeView::Tuple(elements), k1)),
            },
            TokenView::LeftBrace => match self.struct_type(k) {
                Err(error) => Err(error),
                Ok((fields, k1)) => Ok((TypeView::Struct(fields), k1)),
            },
            TokenView::Function => match self.function_type(k) {
                Err(error) => Err(error),
                Ok((function, k1)) => Ok((TypeView::Function(function), k1)),
            },
            _ => Err(self.unexpected(k, "typ"@)),
        }
    }

    /// A tuple type that starts at index `k`: element types in parentheses.
    pub open spec fn tuple_type(self, k: int) -> Parsed<Seq<TypeView>>
        decreases self.left(k), 1nat,
    {
        match self.consume(k, TokenView::LeftParenthesis) {
            Err(error) => Err(error),
            Ok(k1) => match self.elements(k1, Seq::empty()) {
                Err(error) => Err(error),
                Ok((elements, k2)) => match self.consume(k2, TokenView::RightParenthesis) {
                    Err(error) => Err(error),
                    Ok(k3) => Ok((elements, k3)),
                },
            },
        }
    }

    /// The element types from index `k` up to a closing parenthesis, after those of `done`.
    pub open spec fn elements(self, k: int, done: Seq<TypeView>) -> Parsed<Seq<TypeView>>
        decreases self.left(k), 3nat,
    {
        if self.at(k).token == TokenView::RightParenthesis {
            Ok((done, k))
        } else {
            match self.typ(k) {
                Err(error) => Err(error),
                Ok((element, k1)) => {
                    if self.at(k1).token == TokenView::RightParenthesis {
                        Ok((done.push(element), k1))
                    } else {
                        match self.end_element(k1) {
                            Err(error) => Err(error),
                            Ok(k2) => {
                                if self.left(k2) < self.left(k) {
                                    self.elements(k2, done.push(element))
                                } else {
                                    Err(ErrorView::UnexpectedEOF)
                                }
                            },
                        }
                    }
                },
            }
        }
    }

    /// A struct type that starts at index `k`: fields in braces.
    pub open spec fn struct_type(self, k: int) -> Parsed<Seq<FieldView>>
        decreases self.left(k), 1nat,
    {
        match self.consume(k, TokenView::LeftBrace) {
            Err(error) => Err(error),
            Ok(k1) => match self.fields(k1, Seq::empty()) {
                Err(error) => Err(error),
                Ok((fields, k2)) => match self.consume(k2, TokenView::RightBrace) {
                    Err(error) => Err(error),
                    Ok(k3) => Ok((fields, k3)),
                },
            },
        }
    }

    /// The fields from index `k` up to a closing brace, after those of `done`.
    pub open spec fn fields(self, k: int, done: Seq<FieldView>) -> Parsed<Seq<FieldView>>
        decreases self.left(k), 4nat,
    {
        if self.at(k).token == TokenView::RightBrace {
            Ok((done, k))
        } else {
            match self.field(k) {
                Err(error) => Err(error),
                Ok((field, k1)) => {
                    if self.at(k1).token == TokenView::RightBrace {
                        Ok((done.push(field), k1))
                    } else {
                        match self.end_element(k1) {
                            Err(error) => Err(error),
                            Ok(k2) => {
                                if self.left(k2) < self.left(k) {
                                    self.fields(k2, done.push(field))
                                } else {
                                    Err(ErrorView::UnexpectedEOF)
                                }
                            },
                        }
                    }
                },
            }
        }
    }

    /// A field that starts at index `k`: a name, a colon, a type, and if `=` follows, the
    /// expression after it as the default.
    pub open spec fn field(self, k: int) -> Parsed<FieldView>
        decreases self.left(k), 3nat,
    {
        match self.identifier(k) {
            Err(error) => Err(error),
            Ok(name) => match self.advance(k) {
                Err(error) => Err(error),
                Ok(k1) => match self.consume(k1, TokenView::Colon) {
                    Err(error) => Err(error),
                    Ok(k2) => match self.typ(k2) {
                        Err(error) => Err(error),
                        Ok((typ, k3)) => {
                            if self.at(k3).token == TokenView::Assign {
                                match self.advance(k3) {
                                    Err(error) => Err(error),
                                    Ok(k4) => {
                                        if self.left(k4) < self.left(k) {
                                            match self.expression(k4, Precedence::Lowest) {
                                                Err(error) => Err(error),
                                                Ok((value, k5)) => Ok(
                                                    (
                                                        FieldView {
                                                            name,
                                                            typ,
                                                            default: Some(value),
                                                        },
                                                        k5,
                                                    ),
                                                ),
                                            }
                                        } else {
                                            Err(ErrorView::UnexpectedEOF)
                                        }
                                    },
                                }
                            } else {
                                Ok((FieldView { name, typ, default: None }, k3))
                            }
                        },
                    },
                },
            },
        }
    }

    /// A parameter that starts at index `k`: a name, a colon and a type.
    pub open spec fn parameter(self, k: int) -> Parsed<ParameterView>
        decreases self.left(k), 3nat,
    {
        match self.identifier(k) {
            Err(error) => Err(error),
            Ok(name) => match self.advance(k) {
                Err(error) => Err(error),
                Ok(k1) => match self.consume(k1, TokenView::Colon) {
                    Err(error) => Err(error),
                    Ok(k2) => match self.typ(k2) {
                        Err(error) => Err(error),
                        Ok((typ, k3)) => Ok((ParameterView { name, typ }, k3)),
                    },
                },
            },
        }
    }

    /// The parameters from index `k` up to a closing parenthesis, after those of `done`.
    pub open spec fn parameters(self, k: int, done: Seq<ParameterView>) -> Parsed<
        Seq<ParameterView>,
    >
        decreases self.left(k), 4nat,
    {
        if self.at(k).token == TokenView::RightParenthesis {
            Ok((done, k))
        } else {
            match self.parameter(k) {
                Err(error) => Err(error),
                Ok((parameter, k1)) => {
                    if self.at(k1).token == TokenView::RightParenthesis {
                        Ok((done.push(parameter), k1))
                    } else {
                        match self.end_element(k1) {
                            Err(error) => Err(error),
                            Ok(k2) => {
                                if self.left(k2) < self.left(k) {
                                    self.parameters(k2, done.push(parameter))
                                } else {
                                    Err(ErrorView::UnexpectedEOF)
                                }
                            },
                        }
                    }
                },
            }
        }
    }

    /// What follows the name in a function's head, from the opening parenthesis at index `k`
    /// on: the parameters in parentheses and, if a colon follows, the type it returns.
    pub open spec fn signature(self, k: int) -> Parsed<FunctionTypeView>
        decreases self.left(k), 5nat,
    {
        match self.consume(k, TokenView::LeftParenthesis) {
            Err(error) => Err(error),
            Ok(k1) => match self.parameters(k1, Seq::empty()) {
                Err(error) => Err(error),
                Ok((parameters, k2)) => match self.consume(k2, TokenView::RightParenthesis) {
                    Err(error) => Err(error),
                    Ok(k3) => {
                        if self.at(k3).token == TokenView::Colon {
                            match self.advance(k3) {
                                Err(error) => Err(error),
                                Ok(k4) => {
                                    if self.left(k4) < self.left(k) {
                                        match self.typ(k4) {
                                            Err(error) => Err(error),
                                            Ok((typ, k5)) => Ok(
                                                (
                                                    FunctionTypeView {
                                                        parameters,
                                                        return_type: Some(Box::new(typ)),
                                                    },
                                                    k5,
                                                ),
                                            ),
                                        }
                                    } else {
                                        Err(ErrorView::UnexpectedEOF)
                                    }
                                },
                            }
                        } else {
                            Ok((FunctionTypeView { parameters, return_type: None }, k3))
                        }
                    },
                },
            },
        }
    }

    /// A function type that starts at index `k`: `fn`, then a signature.
    pub open spec fn function_type(self, k: int) -> Parsed<FunctionTypeView>
        decreases self.left(k), 1nat,
    {
        match self.consume(k, TokenView::Function) {
            Err(error) => Err(error),
            Ok(k1) => self.signature(k1),
        }
    }

    /// A statement that starts at index `k`, with the separator that ends it.
    pub open spec fn statement(self, k: int) -> Parsed<StatementView>
        decreases self.left(k), 8nat,
    {
        match self.statement_kind(k) {
            Err(error) => Err(error),
            Ok((kind, k1)) => match self.end_statement(k1) {
                Err(error) => Err(error),
                Ok(k2) => Ok(
                    (
                        StatementView {
                            kind,
                            position: Span {
                                start: self.at(k).position.start,
                                end: self.at(k2 - 1).position.end,
                            },
                        },
                        k2,
                    ),
                ),
            },
        }
    }

    /// What a statement that starts at index `k` is. The current token decides: a comment, `mut`,
    /// `{`, `fn` or `return`; else the token after it does: `:=` makes a declaration, `=` an
    /// assignment, and anything else an expression.
    pub open spec fn statement_kind(self, k: int) -> Parsed<StatementKindView>
        decreases self.left(k), 7nat,
    {
        match self.at(k).token {
            TokenView::LineComment(text) => match self.advance(k) {
                Err(error) => Err(error),
                Ok(k1) => Ok((StatementKindView::Comment { text, inline: true }, k1)),
            },
            TokenView::BlockComment(text) => match self.advance(k) {
                Err(error) => Err(error),
                Ok(k1) => Ok((StatementKindView::Comment { text, inline: false }, k1)),
            },
            TokenView::Mutable => self.declaration(k, true),
            TokenView::LeftBrace => match self.block(k) {
                Err(error) => Err(error),
                Ok((statements, k1)) => Ok((StatementKindView::Block(statements), k1)),
            },
            TokenView::Function => self.function_declaration(k),
            TokenView::Return => self.return_statement(k),
            _ => match self.at(k + 1).token {
                TokenView::Declare => self.declaration(k, false),
                TokenView::Assign => self.assignment(k),
                _ => match self.expression(k, Precedence::Lowest) {
                    Err(error) => Err(error),
                    Ok((expression, k1)) => Ok((StatementKindView::Expression(expression), k1)),
                },
            },
        }
    }

    /// A declaration that starts at index `k`: `mut` if it is mutable, a name, `:=` and an
    /// expression.
    pub open spec fn declaration(self, k: int, mutable: bool) -> Parsed<StatementKindView>
        decreases self.left(k), 6nat,
    {
        let start = if mutable {
            self.consume(k, TokenView::Mutable)
        } else {
            Ok(k)
        };
        match start {
            Err(error) => Err(error),
            Ok(k0) => match self.identifier(k0) {
                Err(error) => Err(error),
                Ok(name) => match self.advance(k0) {
                    Err(error) => Err(error),
                    Ok(k1) => match self.consume(k1, TokenView::Declare) {
                        Err(error) => Err(error),
                        Ok(k2) => match self.expression(k2, Precedence::Lowest) {
                            Err(error) => Err(error),
                            Ok((value, k3)) => Ok(
                                (StatementKindView::Declaration { name, mutable, value }, k3),
                            ),
                        },
                    },
                },
            },
        }
    }

    /// An assignment that starts at index `k`: a name, `=` and an expression.
    pub open spec fn assignment(self, k: int) -> Parsed<StatementKindView>
        decreases self.left(k), 6nat,
    {
        match self.identifier(k) {
            Err(error) => Err(error),
            Ok(name) => match self.advance(k) {
                Err(error) => Err(error),
                Ok(k1) => match self.consume(k1, TokenView::Assign) {
                    Err(error) => Err(error),
                    Ok(k2) => match self.expression(k2, Precedence::Lowest) {
                        Err(error) => Err(error),
                        Ok((value, k3)) => Ok((StatementKindView::Assignment { name, value }, k3)),
                    },
                },
            },
        }
    }

    /// A return that starts at index `k`: `return` and an expression.
    pub open spec fn return_statement(self, k: int) -> Parsed<StatementKindView>
        decreases self.left(k), 6nat,
    {
        match self.consume(k, TokenView::Return) {
            Err(error) => Err(error),
            Ok(k1) => match self.expression(k1, Precedence::Lowest) {
                Err(error) => Err(error),
                Ok((value, k2)) => Ok((StatementKindView::Return(value), k2)),
            },
        }
    }

    /// A block that starts at index `k`: statements in braces.
    pub open spec fn block(self, k: int) -> Parsed<Seq<StatementView>>
        decreases self.left(k), 6nat,
    {
        match self.consume(k, TokenView::LeftBrace) {
            Err(error) => Err(error),
            Ok(k1) => match self.statements(k1, Seq::empty()) {
                Err(error) => Err(error),
                Ok((statements, k2)) => match self.consume(k2, TokenView::RightBrace) {
                    Err(error) => Err(error),
                    Ok(k3) => Ok((statements, k3)),
                },
            },
        }
    }

    /// The statements from index `k` up to a closing brace, after those of `done`.
    pub open spec fn statements(self, k: int, done: Seq<StatementView>) -> Parsed<
        Seq<StatementView>,
    >
        decreases self.left(k), 9nat,
    {
        if self.at(k).token == TokenView::RightBrace {
            Ok((done, k))
        } else {
            match self.statement(k) {
                Err(error) => Err(error),
                Ok((statement, k1)) => {
                    if self.left(k1) < self.left(k) {
                        self.statements(k1, done.push(statement))
                    } else {
                        Err(ErrorView::UnexpectedEOF)
                    }
                },
            }
        }
    }

    /// A function declaration that starts at index `k`: `fn`, a name, a signature and a block.
    pub open spec fn function_declaration(self, k: int) -> Parsed<StatementKindView>
        decreases self.left(k), 6nat,
    {
        match self.consume(k, TokenView::Function) {
            Err(error) => Err(error),
            Ok(k1) => match self.identifier(k1) {
                Err(error) => Err(error),
                Ok(name) => match self.advance(k1) {
                    Err(error) => Err(error),
                    Ok(k2) => match self.signature(k2) {
                        Err(error) => Err(error),
                        Ok((typ, k3)) => {
                            if self.left(k3) < self.left(k) {
                                match self.block(k3) {
                                    Err(error) => Err(error),
                                    Ok((body, k4)) => Ok(
                                        (
                                            StatementKindView::FunctionDeclaration {
                                                name,
                                                typ,
                                                body,
                                            },
                                            k4,
                                        ),
                                    ),
                                }
                            } else {
                                Err(ErrorView::UnexpectedEOF)
                            }
                        },
                    },
                },
            },
        }
    }

    /// The statements of a source from index `k` on, after those of `done`. A source whose
    /// first token cannot be read has none, and that is the error.
    pub open spec fn file(self, k: int, done: Seq<StatementView>) -> Result<
        Seq<StatementView>,
        ErrorView,
    >
        decreases self.left(k), 9nat,
    {
        if self.at(k).token == TokenView::EOF {
            match self.end {
                Ending::Failure(error) if k + 2 > self.tokens.len() => Err(
                    ErrorView::LexerError(error),
                ),
                _ => Ok(done),
            }
        } else {
            match self.statement(k) {
                Err(error) => Err(error),
                Ok((statement, k1)) => {
                    if self.left(k1) < self.left(k) {
                        self.file(k1, done.push(statement))
                    } else {
                        Err(ErrorView::UnexpectedEOF)
                    }
                },
            }
        }
    }
}

/// What parsing a source gives: its statements, or the first error.
pub open spec fn parse(src: Seq<char>) -> Result<Seq<StatementView>, ErrorView> {
    stream_of(src).file(0, Seq::empty())
}

} // verus!
