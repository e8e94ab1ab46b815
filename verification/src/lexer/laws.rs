//! What holds of every token that the lexical rules give.
use vstd::prelude::*;
use vstd::utf8::encode_utf8;

use crate::lexer::cursor::{
    char_at, lemma_encode_push, lemma_offset_is_encoded_length, lemma_positions_grow, offset_at,
    width, END,
};
use crate::lexer::rules::{
    block_comment, block_end, digit, lemma_block_end_closes, letter, lex, line_comment, mark,
    number, run_end, stretch, string, token_at, word, Run, Scanned,
};
use crate::token::TokenView;

verus! {

/// A run ends at or after its start, within the source, and holds only characters of the run.
pub proof fn lemma_run_end(src: Seq<char>, i: int, run: Run)
    requires
        0 <= i <= src.len(),
    ensures
        i <= run_end(src, i, run) <= src.len(),
        forall|k: int| i <= k < run_end(src, i, run) ==> run.holds(#[trigger] src[k]),
        run_end(src, i, run) < src.len() ==> !run.holds(src[run_end(src, i, run)]),
    decreases src.len() - i,
{
    if i < src.len() && run.holds(src[i]) {
        lemma_run_end(src, i + 1, run);
    }
}

/// The encoding of two texts, one after the other, is the encoding of the first, then that of
/// the second.
pub proof fn lemma_encode_concat(a: Seq<char>, b: Seq<char>)
    ensures
        encode_utf8(a + b) == encode_utf8(a) + encode_utf8(b),
    decreases b.len(),
{
    if b.len() == 0 {
        assert(a + b =~= a);
        assert(encode_utf8(a) + encode_utf8(b) =~= encode_utf8(a));
    } else {
        let front = b.drop_last();
        lemma_encode_concat(a, front);
        lemma_encode_push(a + front, b.last());
        lemma_encode_push(front, b.last());
        assert(front.push(b.last()) =~= b);
        assert((a + front).push(b.last()) =~= a + b);
        assert(encode_utf8(a + b) =~= encode_utf8(a) + encode_utf8(b));
    }
}

/// The bytes of a source between the offsets of two of its characters are the encoding of the
/// characters between the two.
pub proof fn lemma_bytes_between(src: Seq<char>, a: int, b: int)
    requires
        0 <= a <= b <= src.len(),
    ensures
        offset_at(src, a) <= offset_at(src, b) <= encode_utf8(src).len(),
        encode_utf8(src).subrange(offset_at(src, a) as int, offset_at(src, b) as int)
            == encode_utf8(src.subrange(a, b)),
{
    lemma_offset_is_encoded_length(src, a);
    lemma_offset_is_encoded_length(src, b);
    lemma_positions_grow(src, a, b);
    lemma_encode_concat(src.take(a), src.subrange(a, b));
    lemma_encode_concat(src.take(b), src.skip(b));
    assert(src.take(a) + src.subrange(a, b) =~= src.take(b));
    assert(src.take(b) + src.skip(b) =~= src);
    assert(encode_utf8(src).subrange(offset_at(src, a) as int, offset_at(src, b) as int)
        =~= encode_utf8(src.subrange(a, b)));
}

/// Whether a token is one that is written in the source as it is rendered: every token but
/// `Illegal`, which stands for a character that is no token, and `EOF`, which stands for none.
pub open spec fn written(token: TokenView) -> bool {
    token != TokenView::Illegal && token != TokenView::EOF
}

/// Whether the span of a token covers, in the bytes of the source, exactly the token's rendering.
pub open spec fn faithful(src: Seq<char>, token: TokenView, start: int, end: int) -> bool {
    &&& 0 <= start <= end < encode_utf8(src).len()
    &&& encode_utf8(src).subrange(start, end + 1) == encode_utf8(token.literal())
}

/// What span fidelity asks of a token that was read from index `first` on, where no whitespace
/// stands: unless it is `Illegal` or `EOF`, the characters from `first` up to where reading goes
/// on are its rendering, its span starts at the byte offset of the first of them and ends at
/// the last byte of the last, and so covers exactly the bytes of the rendering.
pub open spec fn exact(src: Seq<char>, first: int, scanned: Scanned) -> bool {
    match scanned {
        Scanned::Token { token, span, next } => written(token) ==> {
            &&& 0 <= first < next <= src.len()
            &&& src.subrange(first, next) == token.literal()
            &&& span.start.offset == offset_at(src, first)
            &&& span.end.offset + 1 == offset_at(src, next)
            &&& faithful(src, token, span.start.offset as int, span.end.offset as int)
        },
        Scanned::UnexpectedEof { .. } => true,
    }
}

/// A token of one or two characters, the last of them of one byte, is read faithfully.
proof fn lemma_mark_exact(src: Seq<char>, token: TokenView, first: int, n: int)
    requires
        encode_utf8(src).len() <= usize::MAX,
        1 <= n <= 2,
        0 <= first,
        first + n <= src.len(),
        src.subrange(first, first + n) =~= token.literal(),
        width(src[first + n - 1]) == 1,
    ensures
        exact(src, first, mark(src, token, first, n)),
{
    lemma_whole(src);
    lemma_positions_grow(src, first + n - 1, first + n);
    lemma_positions_grow(src, first, first + n - 1);
    lemma_positions_grow(src, first + n, src.len() as int);
    lemma_bytes_between(src, first, first + n);
}

/// A token that ends before the character at which reading goes on is read faithfully.
proof fn lemma_stretch_exact(src: Seq<char>, token: TokenView, first: int, next: int)
    requires
        encode_utf8(src).len() <= usize::MAX,
        0 <= first < next <= src.len(),
        src.subrange(first, next) =~= token.literal(),
    ensures
        exact(src, first, stretch(src, token, first, next)),
{
    lemma_whole(src);
    lemma_positions_grow(src, 0, first);
    lemma_positions_grow(src, first, next);
    lemma_positions_grow(src, next, src.len() as int);
    lemma_bytes_between(src, first, next);
}

/// The offset of the end of a source is the length of its encoding.
pub proof fn lemma_whole(src: Seq<char>)
    ensures
        offset_at(src, src.len() as int) == encode_utf8(src).len(),
{
    lemma_offset_is_encoded_length(src, src.len() as int);
    assert(src.take(src.len() as int) =~= src);
}

/// A word is read faithfully.
proof fn lemma_word_exact(src: Seq<char>, first: int)
    requires
        encode_utf8(src).len() <= usize::MAX,
        0 <= first < src.len(),
        letter(src[first]),
    ensures
        exact(src, first, word(src, first)),
{
    let next = run_end(src, first, Run::Word);
    lemma_run_end(src, first + 1, Run::Word);
    let name = src.subrange(first, next);
    match TokenView::keyword(name) {
        Some(keyword) => lemma_stretch_exact(src, keyword, first, next),
        None => lemma_stretch_exact(src, TokenView::Identifier(name), first, next),
    }
}

/// A number is read faithfully.
proof fn lemma_number_exact(src: Seq<char>, first: int)
    requires
        encode_utf8(src).len() <= usize::MAX,
        0 <= first < src.len(),
        digit(src[first]),
    ensures
        exact(src, first, number(src, first)),
{
    let whole = run_end(src, first, Run::Digits);
    lemma_run_end(src, first + 1, Run::Digits);
    if char_at(src, whole) == '.' {
        let next = run_end(src, whole + 1, Run::Digits);
        lemma_run_end(src, whole + 1, Run::Digits);
        lemma_stretch_exact(src, TokenView::Float(src.subrange(first, next)), first, next);
    } else {
        lemma_stretch_exact(src, TokenView::Integer(src.subrange(first, whole)), first, whole);
    }
}

/// A string is read faithfully.
proof fn lemma_string_exact(src: Seq<char>, first: int)
    requires
        encode_utf8(src).len() <= usize::MAX,
        0 <= first < src.len(),
        src[first] == '"',
    ensures
        exact(src, first, string(src, first)),
{
    let quote = run_end(src, first + 1, Run::Quoted);
    lemma_run_end(src, first + 1, Run::Quoted);
    if quote < src.len() {
        lemma_literals();
        lemma_whole(src);
        let token = TokenView::String(src.subrange(first + 1, quote));
        assert(src.subrange(first, quote + 1) =~= token.literal());
        lemma_positions_grow(src, quote, quote + 1);
        lemma_positions_grow(src, first, quote);
        lemma_positions_grow(src, quote + 1, src.len() as int);
        lemma_bytes_between(src, first, quote + 1);
    }
}

/// A line comment is read faithfully.
proof fn lemma_line_comment_exact(src: Seq<char>, first: int)
    requires
        encode_utf8(src).len() <= usize::MAX,
        0 <= first,
        first + 2 <= src.len(),
        src[first] == '/',
        src[first + 1] == '/',
    ensures
        exact(src, first, line_comment(src, first)),
{
    let next = run_end(src, first + 2, Run::Line);
    lemma_run_end(src, first + 2, Run::Line);
    lemma_literals();
    let token = TokenView::LineComment(src.subrange(first + 2, next));
    assert(src.subrange(first, next) =~= token.literal());
    lemma_stretch_exact(src, token, first, next);
}

/// A block comment is read faithfully.
proof fn lemma_block_comment_exact(src: Seq<char>, first: int)
    requires
        encode_utf8(src).len() <= usize::MAX,
        0 <= first,
        first + 2 <= src.len(),
        src[first] == '/',
        src[first + 1] == '*',
    ensures
        exact(src, first, block_comment(src, first)),
{
    match block_end(src, first + 2, 0) {
        Some(next) => {
            lemma_block_end_closes(src, first + 2, 0);
            lemma_literals();
            let token = TokenView::BlockComment(src.subrange(first + 2, next - 2));
            assert(src.subrange(first, next) =~= token.literal());
            lemma_stretch_exact(src, token, first, next);
        },
        None => {},
    }
}

/// Every token is read faithfully from where it starts.
#[verifier::rlimit(60)]
pub proof fn lemma_token_exact(src: Seq<char>, first: int)
    requires
        encode_utf8(src).len() <= usize::MAX,
        0 <= first <= src.len(),
    ensures
        exact(src, first, token_at(src, first)),
{
    reveal(token_at);
    if first < src.len() {
        let c = src[first];
        let d = char_at(src, first + 1);
        lemma_literals();
        let one = src.subrange(first, first + 1);
        assert(one =~= seq![c]);
        if first + 2 <= src.len() {
            assert(src.subrange(first, first + 2) =~= seq![c, d]);
        }
        if c == ':' {
            if d == '=' {
                lemma_mark_exact(src, TokenView::Declare, first, 2);
            } else {
                lemma_mark_exact(src, TokenView::Colon, first, 1);
            }
        } else if c == '.' {
            lemma_mark_exact(src, TokenView::Dot, first, 1);
        } else if c == '+' {
            lemma_mark_exact(src, TokenView::Plus, first, 1);
        } else if c == '-' {
            lemma_mark_exact(src, TokenView::Minus, first, 1);
        } else if c == '*' {
            lemma_mark_exact(src, TokenView::Asterisk, first, 1);
        } else if c == '/' {
            if d == '/' {
                lemma_line_comment_exact(src, first);
            } else if d == '*' {
                lemma_block_comment_exact(src, first);
            } else {
                lemma_mark_exact(src, TokenView::Slash, first, 1);
            }
        } else if c == '%' {
            lemma_mark_exact(src, TokenView::Percent, first, 1);
        } else if c == '!' {
            if d == '=' {
                lemma_mark_exact(src, TokenView::NotEqual, first, 2);
            } else {
                lemma_mark_exact(src, TokenView::ExclamationMark, first, 1);
            }
        } else if c == '=' {
            if d == '=' {
                lemma_mark_exact(src, TokenView::Equal, first, 2);
            } else {
                lemma_mark_exact(src, TokenView::Assign, first, 1);
            }
        } else if c == '<' {
            lemma_mark_exact(src, TokenView::LessThan, first, 1);
        } else if c == '>' {
            lemma_mark_exact(src, TokenView::GreaterThan, first, 1);
        } else if c == ',' {
            lemma_mark_exact(src, TokenView::Comma, first, 1);
        } else if c == ';' {
            lemma_mark_exact(src, TokenView::Semicolon, first, 1);
        } else if c == '(' {
            lemma_mark_exact(src, TokenView::LeftParenthesis, first, 1);
        } else if c == ')' {
            lemma_mark_exact(src, TokenView::RightParenthesis, first, 1);
        } else if c == '[' {
            lemma_mark_exact(src, TokenView::LeftBracket, first, 1);
        } else if c == ']' {
            lemma_mark_exact(src, TokenView::RightBracket, first, 1);
        } else if c == '{' {
            lemma_mark_exact(src, TokenView::LeftBrace, first, 1);
        } else if c == '}' {
            lemma_mark_exact(src, TokenView::RightBrace, first, 1);
        } else if c == '"' {
            lemma_string_exact(src, first);
        } else if c == END {
        } else if letter(c) {
            lemma_word_exact(src, first);
        } else if digit(c) {
            lemma_number_exact(src, first);
        } else {
        }
    }
}

/// Span fidelity. Of every token that is read from a source, but `Illegal` and `EOF`: the
/// characters from the first after the whitespace up to where reading goes on are the token's
/// rendering; its span starts at the byte offset of the first of them and ends at the last byte
/// of the last; so the bytes of the source from the start of the span through its end are
/// those of the rendering.
pub proof fn lemma_span_fidelity(src: Seq<char>, i: int)
    requires
        0 <= i <= src.len(),
        encode_utf8(src).len() <= usize::MAX,
    ensures
        exact(src, run_end(src, i, Run::Blank), lex(src, i)),
        match lex(src, i) {
            Scanned::Token { token, span, next } => written(token) ==> faithful(
                src,
                token,
                span.start.offset as int,
                span.end.offset as int,
            ),
            Scanned::UnexpectedEof { .. } => true,
        },
{
    lemma_run_end(src, i, Run::Blank);
    lemma_token_exact(src, run_end(src, i, Run::Blank));
}

/// Reading a token that is not `EOF` moves on by at least one character and stays within the
/// source; `EOF` is read at the end of the source only, and leaves the lexer there.
#[verifier::rlimit(60)]
pub proof fn lemma_lex_moves(src: Seq<char>, i: int)
    requires
        0 <= i <= src.len(),
        encode_utf8(src).len() <= usize::MAX,
    ensures
        match lex(src, i) {
            Scanned::Token { token, span, next } => {
                if token == TokenView::EOF {
                    &&& next == src.len()
                    &&& lex(src, next) == lex(src, i)
                } else {
                    i < next <= src.len()
                }
            },
            Scanned::UnexpectedEof { .. } => true,
        },
{
    reveal(token_at);
    lemma_run_end(src, i, Run::Blank);
    let first = run_end(src, i, Run::Blank);
    lemma_token_exact(src, first);
    if first >= src.len() {
        lemma_run_end(src, first, Run::Blank);
    }
}

/// The characters of the fixed renderings.
pub proof fn lemma_literals()
    ensures
        "//"@ == seq!['/', '/'],
        "/*"@ == seq!['/', '*'],
        "*/"@ == seq!['*', '/'],
        "\""@ == seq!['"'],
        ":="@ == seq![':', '='],
        "="@ == seq!['='],
        "."@ == seq!['.'],
        "+"@ == seq!['+'],
        "-"@ == seq!['-'],
        "*"@ == seq!['*'],
        "/"@ == seq!['/'],
        "%"@ == seq!['%'],
        "!"@ == seq!['!'],
        "=="@ == seq!['=', '='],
        "!="@ == seq!['!', '='],
        "<"@ == seq!['<'],
        ">"@ == seq!['>'],
        ","@ == seq![','],
        ":"@ == seq![':'],
        ";"@ == seq![';'],
        "("@ == seq!['('],
        ")"@ == seq![')'],
        "["@ == seq!['['],
        "]"@ == seq![']'],
        "{"@ == seq!['{'],
        "}"@ == seq!['}'],
        width('/') == 1,
        width('*') == 1,
        width('"') == 1,
        width(':') == 1,
        width('=') == 1,
        width('.') == 1,
        width('+') == 1,
        width('-') == 1,
        width('%') == 1,
        width('!') == 1,
        width('<') == 1,
        width('>') == 1,
        width(',') == 1,
        width(';') == 1,
        width('(') == 1,
        width(')') == 1,
        width('[') == 1,
        width(']') == 1,
        width('{') == 1,
        width('}') == 1,
{
    reveal_strlit("//");
    reveal_strlit("/*");
    reveal_strlit("*/");
    reveal_strlit("\"");
    reveal_strlit(":=");
    reveal_strlit("=");
    reveal_strlit(".");
    reveal_strlit("+");
    reveal_strlit("-");
    reveal_strlit("*");
    reveal_strlit("/");
    reveal_strlit("%");
    reveal_strlit("!");
    reveal_strlit("==");
    reveal_strlit("!=");
    reveal_strlit("<");
    reveal_strlit(">");
    reveal_strlit(",");
    reveal_strlit(":");
    reveal_strlit(";");
    reveal_strlit("(");
    reveal_strlit(")");
    reveal_strlit("[");
    reveal_strlit("]");
    reveal_strlit("{");
    reveal_strlit("}");
    assert("//"@ =~= seq!['/', '/']);
    assert("/*"@ =~= seq!['/', '*']);
    assert("*/"@ =~= seq!['*', '/']);
    assert("\""@ =~= seq!['"']);
    assert(":="@ =~= seq![':', '=']);
    assert("="@ =~= seq!['=']);
    assert("."@ =~= seq!['.']);
    assert("+"@ =~= seq!['+']);
    assert("-"@ =~= seq!['-']);
    assert("*"@ =~= seq!['*']);
    assert("/"@ =~= seq!['/']);
    assert("%"@ =~= seq!['%']);
    assert("!"@ =~= seq!['!']);
    assert("=="@ =~= seq!['=', '=']);
    assert("!="@ =~= seq!['!', '=']);
    assert("<"@ =~= seq!['<']);
    assert(">"@ =~= seq!['>']);
    assert(","@ =~= seq![',']);
    assert(":"@ =~= seq![':']);
    assert(";"@ =~= seq![';']);
    assert("("@ =~= seq!['(']);
    assert(")"@ =~= seq![')']);
    assert("["@ =~= seq!['[']);
    assert("]"@ =~= seq![']']);
    assert("{"@ =~= seq!['{']);
    assert("}"@ =~= seq!['}']);
}

} // verus!
