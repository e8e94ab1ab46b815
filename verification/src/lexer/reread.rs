//! Reading tokens again from a text in which they are written out.
use vstd::prelude::*;
use vstd::utf8::encode_utf8;

use crate::lexer::cursor::{lemma_positions_grow, line_at, position_at};
use crate::lexer::laws::{lemma_literals, lemma_run_end, lemma_whole};
use crate::lexer::rules::{
    digit, lex, number, run_end, string, token_at, whitespace, word, Run, Scanned,
};
use crate::lexer::sound::{all_of, lemma_block_end_local, lemma_run_end_is, sound, word_text};
use crate::lexer::stream::{lemma_stream_step, stream_from, Ending, Stream};
use crate::token::{Span, TokenInfoView, TokenView};

verus! {

/// The number of line feeds in a text.
pub open spec fn newlines(text: Seq<char>) -> nat
    decreases text.len(),
{
    if text.len() == 0 {
        0
    } else if text.last() == '\n' {
        newlines(text.drop_last()) + 1
    } else {
        newlines(text.drop_last())
    }
}

/// Whether a token may be followed by the character `c` and still be read as it is.
pub open spec fn ends_before(token: TokenView, c: char) -> bool {
    match token {
        TokenView::Identifier(_)
        | TokenView::True
        | TokenView::False
        | TokenView::Mutable
        | TokenView::Function
        | TokenView::Return => !Run::Word.holds(c),
        TokenView::Integer(_) => !digit(c) && c != '.',
        TokenView::Float(_) => !digit(c),
        TokenView::LineComment(_) => c == '\n',
        TokenView::Colon | TokenView::Assign | TokenView::ExclamationMark => c != '=',
        TokenView::Slash => c != '/' && c != '*',
        _ => true,
    }
}

/// Whether a token is written in a source: it is sound and stands for more than a character
/// that is no token or for the end.
pub open spec fn rereadable(token: TokenView) -> bool {
    sound(token) && token != TokenView::Illegal && token != TokenView::EOF
}

/// The line of a later character is the line of an earlier one and the line feeds between them.
pub proof fn lemma_lines_add(text: Seq<char>, i: int, n: int)
    requires
        0 <= i,
        0 <= n,
        i + n <= text.len(),
    ensures
        line_at(text, i + n) == line_at(text, i) + newlines(text.subrange(i, i + n)),
    decreases n,
{
    if n > 0 {
        lemma_lines_add(text, i, n - 1);
        assert(text.subrange(i, i + n).drop_last() =~= text.subrange(i, i + n - 1));
    }
}

/// The characters of the keywords.
pub proof fn lemma_keywords()
    ensures
        "true"@ == seq!['t', 'r', 'u', 'e'],
        "false"@ == seq!['f', 'a', 'l', 's', 'e'],
        "mut"@ == seq!['m', 'u', 't'],
        "fn"@ == seq!['f', 'n'],
        "return"@ == seq!['r', 'e', 't', 'u', 'r', 'n'],
{
    reveal_strlit("true");
    reveal_strlit("false");
    reveal_strlit("mut");
    reveal_strlit("fn");
    reveal_strlit("return");
    assert("true"@ =~= seq!['t', 'r', 'u', 'e']);
    assert("false"@ =~= seq!['f', 'a', 'l', 's', 'e']);
    assert("mut"@ =~= seq!['m', 'u', 't']);
    assert("fn"@ =~= seq!['f', 'n']);
    assert("return"@ =~= seq!['r', 'e', 't', 'u', 'r', 'n']);
}

/// What is read of a token: the token, the index after it, and the lines it starts and ends on.
pub open spec fn read_as(text: Seq<char>, first: int, token: TokenView, scanned: Scanned) -> bool {
    match scanned {
        Scanned::Token { token: read, span, next } => {
            &&& read == token
            &&& next == first + token.literal().len()
            &&& span.start == position_at(text, first)
            &&& span.end.line == position_at(text, next).line
        },
        Scanned::UnexpectedEof { .. } => false,
    }
}

/// A word that is written in a text is read from it as the identifier or keyword it is.
proof fn lemma_reads_word(text: Seq<char>, first: int, name: Seq<char>)
    requires
        word_text(name),
        0 <= first,
        first + name.len() <= text.len(),
        text.subrange(first, first + name.len()) == name,
        first + name.len() == text.len() || !Run::Word.holds(text[first + name.len()]),
    ensures
        token_at(text, first) == word(text, first),
        run_end(text, first, Run::Word) == first + name.len(),
{
    reveal(token_at);
    assert(text[first] == name[0]);
    assert forall|t: int| first <= t < first + name.len() implies Run::Word.holds(
        #[trigger] text[t],
    ) by {
        assert(text[t] == name[t - first]);
    }
    lemma_run_end_is(text, first, first + name.len(), Run::Word);
}

/// A token of a word that is written in a text is read from it.
#[verifier::rlimit(60)]
proof fn lemma_reads_words(text: Seq<char>, first: int, token: TokenView)
    requires
        rereadable(token),
        token is Identifier || token == TokenView::True || token == TokenView::False || token
            == TokenView::Mutable || token == TokenView::Function || token == TokenView::Return,
        0 <= first,
        first + token.literal().len() <= text.len(),
        text.subrange(first, first + token.literal().len()) == token.literal(),
        first + token.literal().len() == text.len() || ends_before(
            token,
            text[first + token.literal().len()],
        ),
    ensures
        read_as(text, first, token, token_at(text, first)),
{
    lemma_keywords();
    let name = token.literal();
    assert(word_text(name)) by {
        if !(token is Identifier) {
            assert forall|i: int| 0 <= i < name.len() implies Run::Word.holds(
                #[trigger] name[i],
            ) by {}
        }
    }
    lemma_reads_word(text, first, name);
}

/// A number that is written in a text is read from it.
#[verifier::rlimit(60)]
proof fn lemma_reads_number(text: Seq<char>, first: int, token: TokenView)
    requires
        rereadable(token),
        token is Integer || token is Float,
        0 <= first,
        first + token.literal().len() <= text.len(),
        text.subrange(first, first + token.literal().len()) == token.literal(),
        first + token.literal().len() == text.len() || ends_before(
            token,
            text[first + token.literal().len()],
        ),
    ensures
        read_as(text, first, token, token_at(text, first)),
{
    reveal(token_at);
    let lit = token.literal();
    let next = first + lit.len();
    match token {
        TokenView::Integer(digits) => {
            assert(text[first] == digits[0]);
            assert forall|t: int| first <= t < next implies Run::Digits.holds(
                #[trigger] text[t],
            ) by {
                assert(text[t] == digits[t - first]);
            }
            lemma_run_end_is(text, first, next, Run::Digits);
            assert(text.subrange(first, next) == digits);
        },
        TokenView::Float(digits) => {
            let dot = run_end(digits, 0, Run::Digits);
            lemma_run_end(digits, 0, Run::Digits);
            assert(text[first] == digits[0]);
            assert forall|t: int| first <= t < first + dot implies Run::Digits.holds(
                #[trigger] text[t],
            ) by {
                assert(text[t] == digits[t - first]);
            }
            assert(text[first + dot] == digits[dot]);
            lemma_run_end_is(text, first, first + dot, Run::Digits);
            let tail = digits.subrange(dot + 1, digits.len() as int);
            assert forall|t: int| first + dot + 1 <= t < next implies Run::Digits.holds(
                #[trigger] text[t],
            ) by {
                assert(text[t] == digits[t - first]);
                assert(digits[t - first] == tail[t - first - dot - 1]);
            }
            lemma_run_end_is(text, first + dot + 1, next, Run::Digits);
            assert(text.subrange(first, next) == digits);
        },
        _ => {},
    }
}

/// A string or a comment that is written in a text is read from it.
#[verifier::rlimit(60)]
proof fn lemma_reads_quoted(text: Seq<char>, first: int, token: TokenView)
    requires
        rereadable(token),
        token is String || token is LineComment || token is BlockComment,
        0 <= first,
        first + token.literal().len() <= text.len(),
        text.subrange(first, first + token.literal().len()) == token.literal(),
        first + token.literal().len() == text.len() || ends_before(
            token,
            text[first + token.literal().len()],
        ),
    ensures
        read_as(text, first, token, token_at(text, first)),
{
    reveal(token_at);
    lemma_literals();
    let lit = token.literal();
    let next = first + lit.len();
    assert(text[first] == lit[0]);
    assert(text[first + 1] == lit[1]);
    match token {
        TokenView::String(contents) => {
            assert forall|t: int| first + 1 <= t < next - 1 implies Run::Quoted.holds(
                #[trigger] text[t],
            ) by {
                assert(text[t] == lit[t - first]);
                assert(lit[t - first] == contents[t - first - 1]);
            }
            assert(text[next - 1] == lit[lit.len() - 1]);
            lemma_run_end_is(text, first + 1, next - 1, Run::Quoted);
            assert(text.subrange(first + 1, next - 1) =~= contents) by {
                assert forall|t: int| 0 <= t < contents.len() implies text.subrange(
                    first + 1,
                    next - 1,
                )[t] == contents[t] by {
                    assert(text[first + 1 + t] == lit[1 + t]);
                }
            }
            assert(line_at(text, next) == line_at(text, next - 1));
        },
        TokenView::LineComment(comment) => {
            assert forall|t: int| first + 2 <= t < next implies Run::Line.holds(
                #[trigger] text[t],
            ) by {
                assert(text[t] == lit[t - first]);
                assert(lit[t - first] == comment[t - first - 2]);
            }
            lemma_run_end_is(text, first + 2, next, Run::Line);
            assert(text.subrange(first + 2, next) =~= comment) by {
                assert forall|t: int| 0 <= t < comment.len() implies text.subrange(
                    first + 2,
                    next,
                )[t] == comment[t] by {
                    assert(text[first + 2 + t] == lit[2 + t]);
                }
            }
        },
        TokenView::BlockComment(comment) => {
            let closed = comment + seq!['*', '/'];
            assert forall|t: int| 0 <= t < closed.len() implies #[trigger] closed[0 + t]
                == text[first + 2 + t] by {
                assert(text[first + 2 + t] == lit[2 + t]);
            }
            lemma_block_end_local(closed, 0, text, first + 2, 0);
            assert(text.subrange(first + 2, next - 2) =~= comment) by {
                assert forall|t: int| 0 <= t < comment.len() implies text.subrange(
                    first + 2,
                    next - 2,
                )[t] == comment[t] by {
                    assert(text[first + 2 + t] == lit[2 + t]);
                }
            }
        },
        _ => {},
    }
}

/// An operator or a delimiter that is written in a text is read from it.
#[verifier::rlimit(60)]
proof fn lemma_reads_mark(text: Seq<char>, first: int, token: TokenView)
    requires
        rereadable(token),
        !(token is Identifier || token == TokenView::True || token == TokenView::False || token
            == TokenView::Mutable || token == TokenView::Function || token == TokenView::Return),
        !(token is Integer || token is Float),
        !(token is String || token is LineComment || token is BlockComment),
        0 <= first,
        first + token.literal().len() <= text.len(),
        text.subrange(first, first + token.literal().len()) == token.literal(),
        first + token.literal().len() == text.len() || ends_before(
            token,
            text[first + token.literal().len()],
        ),
    ensures
        read_as(text, first, token, token_at(text, first)),
{
    reveal(token_at);
    lemma_literals();
    let lit = token.literal();
    let next = first + lit.len();
    assert(text[first] == lit[0]);
    if lit.len() == 2 {
        assert(text[first + 1] == lit[1]);
        assert(line_at(text, next - 1) == line_at(text, first));
    }
    assert(line_at(text, next) == line_at(text, next - 1));
}

/// A token that is written in a text, and followed there by a character that it ends before,
/// is read from the text as it is.
pub proof fn lemma_reads(text: Seq<char>, first: int, token: TokenView)
    requires
        rereadable(token),
        0 <= first,
        first + token.literal().len() <= text.len(),
        text.subrange(first, first + token.literal().len()) == token.literal(),
        first + token.literal().len() == text.len() || ends_before(
            token,
            text[first + token.literal().len()],
        ),
    ensures
        read_as(text, first, token, token_at(text, first)),
{
    if token is Identifier || token == TokenView::True || token == TokenView::False || token
        == TokenView::Mutable || token == TokenView::Function || token == TokenView::Return {
        lemma_reads_words(text, first, token);
    } else if token is Integer || token is Float {
        lemma_reads_number(text, first, token);
    } else if token is String || token is LineComment || token is BlockComment {
        lemma_reads_quoted(text, first, token);
    } else {
        lemma_reads_mark(text, first, token);
    }
}

/// A token as it is written in a text: the whitespace before it, and the token.
pub struct Item {
    pub white: Seq<char>,
    pub token: TokenView,
}

/// The text in which the items are written one after the other.
pub open spec fn emit(items: Seq<Item>) -> Seq<char>
    decreases items.len(),
{
    if items.len() == 0 {
        Seq::empty()
    } else {
        items[0].white + items[0].token.literal() + emit(items.drop_first())
    }
}

/// The first character of what is written after the item at index `m`: of the item after it,
/// or of `tail` after the last; `None` where nothing is written.
pub open spec fn follower(items: Seq<Item>, m: int, tail: Seq<char>) -> Option<char> {
    if m + 1 < items.len() {
        let next = items[m + 1];
        if next.white.len() > 0 {
            Some(next.white[0])
        } else if next.token.literal().len() > 0 {
            Some(next.token.literal()[0])
        } else {
            None
        }
    } else if tail.len() > 0 {
        Some(tail[0])
    } else {
        None
    }
}

/// Whether the items, written one after the other and then `tail`, can be read again: each is
/// written in a source, after whitespace only, and ends before what is written after it.
pub open spec fn readable(items: Seq<Item>, tail: Seq<char>) -> bool {
    &&& all_of(tail, Run::Blank)
    &&& forall|m: int|
        0 <= m < items.len() ==> {
            &&& rereadable(#[trigger] items[m].token)
            &&& all_of(items[m].white, Run::Blank)
            &&& match follower(items, m, tail) {
                Some(c) => ends_before(items[m].token, c),
                None => true,
            }
        }
}

/// Whether the tokens `tokens`, which end with the end of the source at `eof`, are the items
/// as they are read from a text that starts on line `line`: the same tokens, each starting as
/// many lines after the one before it ended as there are line feeds in the whitespace before
/// it, and ending as many lines after it started as there are line feeds in it.
pub open spec fn read_back(
    items: Seq<Item>,
    tail: Seq<char>,
    line: int,
    tokens: Seq<TokenInfoView>,
    eof: Span,
) -> bool {
    &&& tokens.len() == items.len()
    &&& forall|m: int|
        0 <= m < items.len() ==> {
            &&& (#[trigger] tokens[m]).token == items[m].token
            &&& tokens[m].position.start.line == (if m == 0 {
                line
            } else {
                tokens[m - 1].position.end.line as int
            }) + newlines(items[m].white)
            &&& tokens[m].position.end.line == tokens[m].position.start.line + newlines(
                items[m].token.literal(),
            )
        }
    &&& eof.start.line == (if items.len() == 0 {
        line
    } else {
        tokens[items.len() - 1].position.end.line as int
    }) + newlines(tail)
    &&& eof.end == eof.start
}

/// The part of a text after an index, where the text from that index on is two texts, one
/// after the other.
pub proof fn lemma_skip_parts(text: Seq<char>, i: int, a: Seq<char>, b: Seq<char>)
    requires
        0 <= i <= text.len(),
        text.skip(i) == a + b,
    ensures
        i + a.len() + b.len() == text.len(),
        text.subrange(i, i + a.len()) == a,
        text.skip(i + a.len()) == b,
{
    assert((a + b).len() == a.len() + b.len());
    assert(text.skip(i).len() == text.len() - i);
    let whole = a + b;
    assert forall|t: int| 0 <= t < a.len() implies text[i + t] == a[t] by {
        assert(text.skip(i)[t] == text[i + t]);
        assert(whole[t] == a[t]);
    }
    assert forall|t: int| 0 <= t < b.len() implies text[i + a.len() + t] == b[t] by {
        assert(text.skip(i)[a.len() + t] == text[i + (a.len() + t)]);
        assert(whole[a.len() + t] == b[t]);
    }
    assert(text.subrange(i, i + a.len()) =~= a);
    assert(text.skip(i + a.len()) =~= b);
}

/// The literal of a token that is written in a source is not empty and starts with a
/// character that is no whitespace.
pub proof fn lemma_literal_starts(token: TokenView)
    requires
        rereadable(token),
    ensures
        token.literal().len() >= 1,
        !whitespace(token.literal()[0]),
{
    lemma_literals();
    lemma_keywords();
    reveal_strlit("ILLEGAL");
    match token {
        TokenView::Float(text) => {
            lemma_run_end(text, 0, Run::Digits);
            assert(Run::Digits.holds(text[0]));
        },
        TokenView::Integer(text) => {
            assert(Run::Digits.holds(text[0]));
        },
        _ => {},
    }
}

/// Whether what is read from a text at index `i` is the token `token` after the whitespace
/// `white`: the token, and the lines it starts and ends on.
pub open spec fn lexed_as(
    text: Seq<char>,
    i: int,
    white: Seq<char>,
    token: TokenView,
    scanned: Scanned,
) -> bool {
    match scanned {
        Scanned::Token { token: read, span, next } => {
            &&& read == token
            &&& next == i + white.len() + token.literal().len()
            &&& span.start.line == line_at(text, i) + newlines(white)
            &&& span.end.line == span.start.line + newlines(token.literal())
            &&& span.end.line == line_at(text, next)
        },
        Scanned::UnexpectedEof { .. } => false,
    }
}

/// The first of the items that are written in a text is read from it, and the others are
/// written after it.
#[verifier::rlimit(60)]
pub proof fn lemma_rereads_first(text: Seq<char>, i: int, items: Seq<Item>, tail: Seq<char>)
    requires
        0 <= i <= text.len(),
        items.len() > 0,
        text.skip(i) == emit(items) + tail,
        readable(items, tail),
        encode_utf8(text).len() < usize::MAX,
    ensures
        lexed_as(text, i, items[0].white, items[0].token, lex(text, i)),
        i + items[0].white.len() + items[0].token.literal().len() <= text.len(),
        text.skip(i + items[0].white.len() + items[0].token.literal().len()) == emit(
            items.drop_first(),
        ) + tail,
        readable(items.drop_first(), tail),
{
    lemma_whole(text);
    lemma_positions_grow(text, 0, text.len() as int);
    let item = items[0];
    let rest = items.drop_first();
    let lit = item.token.literal();
    lemma_literal_starts(item.token);
    assert(emit(items) + tail =~= item.white + (lit + (emit(rest) + tail)));
    lemma_skip_parts(text, i, item.white, lit + (emit(rest) + tail));
    let first = i + item.white.len();
    lemma_skip_parts(text, first, lit, emit(rest) + tail);
    let next = first + lit.len();
    assert forall|t: int| i <= t < first implies Run::Blank.holds(#[trigger] text[t]) by {
        assert(text.subrange(i, first)[t - i] == item.white[t - i]);
    }
    assert(text[first] == lit[0]) by {
        assert(text.subrange(first, next)[0] == lit[0]);
    }
    lemma_run_end_is(text, i, first, Run::Blank);
    if next < text.len() {
        assert(text[next] == (emit(rest) + tail)[0]) by {
            assert(text.skip(next)[0] == text[next]);
        }
        if rest.len() > 0 {
            let after = rest[0];
            lemma_literal_starts(after.token);
            assert(items[1] == after);
            assert(rereadable(items[1].token));
            assert(emit(rest) == after.white + after.token.literal() + emit(rest.drop_first()));
        } else {
            assert(emit(rest) + tail =~= tail);
        }
        assert(follower(items, 0, tail) == Some(text[next]));
    }
    assert(rereadable(items[0].token));
    lemma_reads(text, first, item.token);
    lemma_lines_add(text, i, item.white.len() as int);
    lemma_lines_add(text, first, lit.len() as int);
    lemma_positions_grow(text, 0, first);
    lemma_positions_grow(text, 0, next);
    assert(readable(rest, tail)) by {
        assert forall|m: int| 0 <= m < rest.len() implies {
            &&& rereadable(#[trigger] rest[m].token)
            &&& all_of(rest[m].white, Run::Blank)
            &&& match follower(rest, m, tail) {
                Some(c) => ends_before(rest[m].token, c),
                None => true,
            }
        } by {
            assert(rest[m] == items[m + 1]);
            assert(rereadable(items[m + 1].token));
            assert(follower(rest, m, tail) == follower(items, m + 1, tail)) by {
                if m + 1 < rest.len() {
                    assert(rest[m + 1] == items[m + 2]);
                }
            }
        }
    }
}

/// From a text of whitespace only, the end is read, on the line on which the text ends.
pub proof fn lemma_rereads_end(text: Seq<char>, i: int, tail: Seq<char>)
    requires
        0 <= i <= text.len(),
        text.skip(i) == tail,
        all_of(tail, Run::Blank),
        encode_utf8(text).len() < usize::MAX,
    ensures
        match lex(text, i) {
            Scanned::Token { token, span, next } => {
                &&& token == TokenView::EOF
                &&& span.start.line == line_at(text, i) + newlines(tail)
                &&& span.end == span.start
            },
            Scanned::UnexpectedEof { .. } => false,
        },
{
    lemma_whole(text);
    lemma_positions_grow(text, 0, text.len() as int);
    assert forall|t: int| i <= t < text.len() implies Run::Blank.holds(#[trigger] text[t]) by {
        assert(text.skip(i)[t - i] == tail[t - i]);
    }
    lemma_run_end_is(text, i, text.len() as int, Run::Blank);
    reveal(token_at);
    lemma_lines_add(text, i, text.len() - i);
    assert(text.subrange(i, text.len() as int) =~= tail);
}

/// Items that are written in a text, one after the other and then whitespace up to its end,
/// are read back from it: the tokens of the text are theirs, and stand on the lines on which
/// they are written.
#[verifier::rlimit(60)]
pub proof fn lemma_rereads(text: Seq<char>, i: int, items: Seq<Item>, tail: Seq<char>)
    requires
        0 <= i <= text.len(),
        text.skip(i) == emit(items) + tail,
        readable(items, tail),
        encode_utf8(text).len() < usize::MAX,
    ensures
        match stream_from(text, i) {
            Stream {
                tokens,
                end: Ending::Eof(eof),
            } => read_back(items, tail, line_at(text, i) as int, tokens, eof),
            _ => false,
        },
    decreases items.len(),
{
    lemma_stream_step(text, i);
    if items.len() == 0 {
        assert(emit(items) + tail =~= tail);
        lemma_rereads_end(text, i, tail);
    } else {
        let rest = items.drop_first();
        lemma_rereads_first(text, i, items, tail);
        lemma_literal_starts(items[0].token);
        let next = i + items[0].white.len() + items[0].token.literal().len();
        lemma_rereads(text, next, rest, tail);
        let whole = stream_from(text, i);
        let later = stream_from(text, next);
        assert(whole.tokens.len() == items.len());
        assert(whole.tokens =~= seq![whole.tokens[0]] + later.tokens);
        assert forall|m: int| 0 <= m < items.len() implies {
            &&& (#[trigger] whole.tokens[m]).token == items[m].token
            &&& whole.tokens[m].position.start.line == (if m == 0 {
                line_at(text, i) as int
            } else {
                whole.tokens[m - 1].position.end.line as int
            }) + newlines(items[m].white)
            &&& whole.tokens[m].position.end.line == whole.tokens[m].position.start.line
                + newlines(items[m].token.literal())
        } by {
            if m > 0 {
                assert(whole.tokens[m] == later.tokens[m - 1]);
                assert(items[m] == rest[m - 1]);
                if m > 1 {
                    assert(whole.tokens[m - 1] == later.tokens[m - 2]);
                }
            }
        }
        if items.len() > 1 {
            assert(whole.tokens[items.len() - 1] == later.tokens[rest.len() - 1]);
        }
    }
}

} // verus!
