//! The lexical rules, as functions of the source text.
use vstd::prelude::*;

use crate::lexer::cursor::{char_at, position_at, END};
use crate::std_specs::alphabetic;
use crate::token::{Position, Span, TokenView};

verus! {

/// A letter of the basic Latin alphabet.
pub open spec fn latin_letter(c: char) -> bool {
    ('a' <= c && c <= 'z') || ('A' <= c && c <= 'Z')
}

/// A letter: an underscore, a letter of the basic Latin alphabet, or an alphabetic character
/// beyond ASCII.
pub open spec fn letter(c: char) -> bool {
    c == '_' || latin_letter(c) || (c > '\x7f' && alphabetic(c))
}

/// A decimal digit.
pub open spec fn digit(c: char) -> bool {
    '0' <= c && c <= '9'
}

/// A space, tab, line feed, form feed or carriage return.
pub open spec fn whitespace(c: char) -> bool {
    c == ' ' || c == '\t' || c == '\n' || c == '\x0C' || c == '\r'
}

/// A stretch of characters that is read in one go.
#[derive(Clone, Copy, Debug, PartialEq, Eq, Structural)]
pub enum Run {
    /// Whitespace between tokens.
    Blank,
    /// Letters and digits: the rest of an identifier or keyword.
    Word,
    /// Decimal digits.
    Digits,
    /// Everything up to the end of the line.
    Line,
    /// Everything up to the next double quote.
    Quoted,
}

impl Run {
    /// Whether `c` belongs to the run.
    pub open spec fn holds(self, c: char) -> bool {
        match self {
            Run::Blank => whitespace(c),
            Run::Word => letter(c) || digit(c),
            Run::Digits => digit(c),
            Run::Line => c != '\n',
            Run::Quoted => c != '"',
        }
    }
}

/// The index at which the run that starts at index `i` ends: the first index from `i` on whose
/// character is not of the run, or the length of the source.
pub open spec fn run_end(src: Seq<char>, i: int, run: Run) -> int
    decreases src.len() - i,
{
    if 0 <= i < src.len() && run.holds(src[i]) {
        run_end(src, i + 1, run)
    } else {
        i
    }
}

/// Whether a block comment is closed at index `i`: `*/` stands there.
pub open spec fn closes(src: Seq<char>, i: int) -> bool {
    char_at(src, i) == '*' && char_at(src, i + 1) == '/'
}

/// Whether a block comment is opened at index `i`: `/*` stands there.
pub open spec fn opens(src: Seq<char>, i: int) -> bool {
    char_at(src, i) == '/' && char_at(src, i + 1) == '*'
}

/// Where the block comment that index `i` lies in ends, `depth` further comments being open
/// inside it at `i`: the index after the `*/` that closes it, or `None` if the source ends first.
pub open spec fn block_end(src: Seq<char>, i: int, depth: nat) -> Option<int>
    decreases src.len() - i,
{
    if i < 0 || i >= src.len() {
        None
    } else if closes(src, i) {
        if depth == 0 {
            Some(i + 2)
        } else {
            block_end(src, i + 2, (depth - 1) as nat)
        }
    } else if opens(src, i) {
        block_end(src, i + 2, depth + 1)
    } else {
        block_end(src, i + 1, depth)
    }
}

/// The index after a closed block comment lies past the `*/` that closes it.
pub proof fn lemma_block_end_closes(src: Seq<char>, i: int, depth: nat)
    requires
        block_end(src, i, depth).is_some(),
    ensures
        i + 2 <= block_end(src, i, depth).unwrap() <= src.len(),
        closes(src, block_end(src, i, depth).unwrap() - 2),
    decreases src.len() - i,
{
    if closes(src, i) {
        if depth > 0 {
            lemma_block_end_closes(src, i + 2, (depth - 1) as nat);
        }
    } else if opens(src, i) {
        lemma_block_end_closes(src, i + 2, depth + 1);
    } else {
        lemma_block_end_closes(src, i + 1, depth);
    }
}

/// A comment with further comments open inside it ends where, once the innermost `inner + 1`
/// of them have ended, the rest of it ends.
pub proof fn lemma_block_end_nested(src: Seq<char>, i: int, inner: nat, outer: nat)
    ensures
        block_end(src, i, inner + outer + 1) == match block_end(src, i, inner) {
            Some(j) => block_end(src, j, outer),
            None => None,
        },
    decreases src.len() - i,
{
    if i < 0 || i >= src.len() {
    } else if closes(src, i) {
        if inner > 0 {
            lemma_block_end_nested(src, i + 2, (inner - 1) as nat, outer);
        }
    } else if opens(src, i) {
        lemma_block_end_nested(src, i + 2, inner + 1, outer);
    } else {
        lemma_block_end_nested(src, i + 1, inner, outer);
    }
}

/// What reading one token gives.
pub enum Scanned {
    /// A token, the span it was read from, and the index at which reading goes on.
    Token { token: TokenView, span: Span, next: int },
    /// The source ended inside a string or a block comment.
    UnexpectedEof { position: Position },
}

/// The position of the last byte before the character at index `i`.
pub open spec fn position_before(src: Seq<char>, i: int) -> Position {
    let p = position_at(src, i);
    Position {
        offset: if p.offset >= 1 { (p.offset - 1) as usize } else { 0 },
        line: p.line,
        line_offset: p.line_offset,
    }
}

/// A token of `n` characters (one or two) that starts at index `first`.
pub open spec fn mark(src: Seq<char>, token: TokenView, first: int, n: int) -> Scanned {
    Scanned::Token {
        token,
        span: Span { start: position_at(src, first), end: position_at(src, first + n - 1) },
        next: first + n,
    }
}

/// A token that starts at index `first` and ends before index `next`.
pub open spec fn stretch(src: Seq<char>, token: TokenView, first: int, next: int) -> Scanned {
    Scanned::Token {
        token,
        span: Span { start: position_at(src, first), end: position_before(src, next) },
        next,
    }
}

/// The end of the input, met at index `first`: the token `EOF`, of no characters.
pub open spec fn end_of_input(src: Seq<char>, first: int) -> Scanned {
    Scanned::Token {
        token: TokenView::EOF,
        span: Span { start: position_at(src, first), end: position_at(src, first) },
        next: first,
    }
}

/// The source ended where more was needed.
pub open spec fn cut_short(src: Seq<char>) -> Scanned {
    Scanned::UnexpectedEof { position: position_at(src, src.len() as int) }
}

/// An identifier or keyword that starts at index `first`.
pub open spec fn word(src: Seq<char>, first: int) -> Scanned {
    let next = run_end(src, first, Run::Word);
    let name = src.subrange(first, next);
    match TokenView::keyword(name) {
        Some(keyword) => stretch(src, keyword, first, next),
        None => stretch(src, TokenView::Identifier(name), first, next),
    }
}

/// A number that starts at index `first`: digits, and if a dot follows them, the dot and the
/// digits after it.
pub open spec fn number(src: Seq<char>, first: int) -> Scanned {
    let whole = run_end(src, first, Run::Digits);
    if char_at(src, whole) == '.' {
        let next = run_end(src, whole + 1, Run::Digits);
        stretch(src, TokenView::Float(src.subrange(first, next)), first, next)
    } else {
        stretch(src, TokenView::Integer(src.subrange(first, whole)), first, whole)
    }
}

/// A string whose opening quote stands at index `first`.
pub open spec fn string(src: Seq<char>, first: int) -> Scanned {
    let quote = run_end(src, first + 1, Run::Quoted);
    if quote < src.len() {
        Scanned::Token {
            token: TokenView::String(src.subrange(first + 1, quote)),
            span: Span { start: position_at(src, first), end: position_at(src, quote) },
            next: quote + 1,
        }
    } else {
        cut_short(src)
    }
}

/// A line comment whose `//` stands at index `first`.
pub open spec fn line_comment(src: Seq<char>, first: int) -> Scanned {
    let next = run_end(src, first + 2, Run::Line);
    stretch(src, TokenView::LineComment(src.subrange(first + 2, next)), first, next)
}

/// A block comment whose `/*` stands at index `first`.
pub open spec fn block_comment(src: Seq<char>, first: int) -> Scanned {
    match block_end(src, first + 2, 0) {
        Some(next) => stretch(
            src,
            TokenView::BlockComment(src.subrange(first + 2, next - 2)),
            first,
            next,
        ),
        None => cut_short(src),
    }
}

/// The token that starts at index `first`, where no whitespace stands.
#[verifier::opaque]
pub open spec fn token_at(src: Seq<char>, first: int) -> Scanned {
    let c = char_at(src, first);
    let d = char_at(src, first + 1);
    if first < 0 || first >= src.len() {
        end_of_input(src, first)
    } else if c == ':' {
        if d == '=' {
            mark(src, TokenView::Declare, first, 2)
        } else {
            mark(src, TokenView::Colon, first, 1)
        }
    } else if c == '.' {
        mark(src, TokenView::Dot, first, 1)
    } else if c == '+' {
        mark(src, TokenView::Plus, first, 1)
    } else if c == '-' {
        mark(src, TokenView::Minus, first, 1)
    } else if c == '*' {
        mark(src, TokenView::Asterisk, first, 1)
    } else if c == '/' {
        if d == '/' {
            line_comment(src, first)
        } else if d == '*' {
            block_comment(src, first)
        } else {
            mark(src, TokenView::Slash, first, 1)
        }
    } else if c == '%' {
        mark(src, TokenView::Percent, first, 1)
    } else if c == '!' {
        if d == '=' {
            mark(src, TokenView::NotEqual, first, 2)
        } else {
            mark(src, TokenView::ExclamationMark, first, 1)
        }
    } else if c == '=' {
        if d == '=' {
            mark(src, TokenView::Equal, first, 2)
        } else {
            mark(src, TokenView::Assign, first, 1)
        }
    } else if c == '<' {
        mark(src, TokenView::LessThan, first, 1)
    } else if c == '>' {
        mark(src, TokenView::GreaterThan, first, 1)
    } else if c == ',' {
        mark(src, TokenView::Comma, first, 1)
    } else if c == ';' {
        mark(src, TokenView::Semicolon, first, 1)
    } else if c == '(' {
        mark(src, TokenView::LeftParenthesis, first, 1)
    } else if c == ')' {
        mark(src, TokenView::RightParenthesis, first, 1)
    } else if c == '[' {
        mark(src, TokenView::LeftBracket, first, 1)
    } else if c == ']' {
        mark(src, TokenView::RightBracket, first, 1)
    } else if c == '{' {
        mark(src, TokenView::LeftBrace, first, 1)
    } else if c == '}' {
        mark(src, TokenView::RightBrace, first, 1)
    } else if c == '"' {
        string(src, first)
    } else if c == END {
        mark(src, TokenView::Illegal, first, 1)
    } else if letter(c) {
        word(src, first)
    } else if digit(c) {
        number(src, first)
    } else {
        mark(src, TokenView::Illegal, first, 1)
    }
}

/// What reading one token from index `i` on gives: whitespace is passed over, then a token is
/// read. At the end of the source the token is `EOF`, as often as it is asked for.
pub open spec fn lex(src: Seq<char>, i: int) -> Scanned {
    token_at(src, run_end(src, i, Run::Blank))
}

} // verus!
