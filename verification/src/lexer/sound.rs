//! What the text of a token is like, whatever source it was read from.
use vstd::prelude::*;

use crate::lexer::cursor::char_at;
use crate::lexer::laws::lemma_run_end;
use crate::lexer::rules::{
    block_end, closes, digit, lemma_block_end_closes, letter, opens, run_end, token_at, Run,
    Scanned,
};
use crate::token::TokenView;

verus! {

/// Whether every character of `text` belongs to `run`.
pub open spec fn all_of(text: Seq<char>, run: Run) -> bool {
    forall|i: int| 0 <= i < text.len() ==> run.holds(#[trigger] text[i])
}

/// The text of an identifier or keyword: a letter, then letters and digits.
pub open spec fn word_text(name: Seq<char>) -> bool {
    &&& name.len() >= 1
    &&& letter(name[0])
    &&& all_of(name, Run::Word)
}

/// The text of an integer: one or more digits.
pub open spec fn integer_text(digits: Seq<char>) -> bool {
    digits.len() >= 1 && all_of(digits, Run::Digits)
}

/// The text of a float: one or more digits, a dot, and digits.
pub open spec fn float_text(text: Seq<char>) -> bool {
    let dot = run_end(text, 0, Run::Digits);
    &&& 1 <= dot < text.len()
    &&& text[dot] == '.'
    &&& all_of(text.subrange(dot + 1, text.len() as int), Run::Digits)
}

/// The text of a block comment: every `/*` in it is closed in it, and no `*/` in it closes more
/// than was opened, so that the `*/` after it is the one that closes the comment.
pub open spec fn block_text(text: Seq<char>) -> bool {
    block_end(text + seq!['*', '/'], 0, 0) == Some(text.len() as int + 2)
}

/// Whether a token is as the lexer gives it: the text it carries is of its kind.
pub open spec fn sound(token: TokenView) -> bool {
    match token {
        TokenView::Identifier(name) => word_text(name) && TokenView::keyword(name).is_none(),
        TokenView::Integer(digits) => integer_text(digits),
        TokenView::Float(text) => float_text(text),
        TokenView::String(contents) => all_of(contents, Run::Quoted),
        TokenView::LineComment(text) => all_of(text, Run::Line),
        TokenView::BlockComment(text) => block_text(text),
        _ => true,
    }
}

/// A run that starts at index `i` ends at index `e` if the characters between the two belong
/// to it and the one at `e`, if there is one, does not.
pub proof fn lemma_run_end_is(src: Seq<char>, i: int, e: int, run: Run)
    requires
        0 <= i <= e <= src.len(),
        forall|t: int| i <= t < e ==> run.holds(#[trigger] src[t]),
        e == src.len() || !run.holds(src[e]),
    ensures
        run_end(src, i, run) == e,
    decreases e - i,
{
    if i < e {
        lemma_run_end_is(src, i + 1, e, run);
    }
}

/// Where a block comment ends depends on its characters only: the same characters at another
/// place, of the same or another text, end in the same way.
pub proof fn lemma_block_end_local(a: Seq<char>, i: int, b: Seq<char>, j: int, depth: nat)
    requires
        0 <= i,
        0 <= j,
        block_end(a, i, depth).is_some(),
        j + (block_end(a, i, depth).unwrap() - i) <= b.len(),
        forall|t: int|
            0 <= t < block_end(a, i, depth).unwrap() - i ==> #[trigger] a[i + t] == b[j + t],
    ensures
        block_end(b, j, depth) == Some(j + (block_end(a, i, depth).unwrap() - i)),
    decreases a.len() - i,
{
    lemma_block_end_closes(a, i, depth);
    let e = block_end(a, i, depth).unwrap();
    assert(a[i + 0] == b[j + 0]);
    assert(a[i + 1] == b[j + 1]);
    assert(closes(a, i) == closes(b, j));
    assert(opens(a, i) == opens(b, j));
    if closes(a, i) {
        if depth > 0 {
            assert forall|t: int| 0 <= t < e - (i + 2) implies #[trigger] a[i + 2 + t] == b[j + 2
                + t] by {
                assert(a[i + (t + 2)] == b[j + (t + 2)]);
            }
            lemma_block_end_local(a, i + 2, b, j + 2, (depth - 1) as nat);
        }
    } else if opens(a, i) {
        assert forall|t: int| 0 <= t < e - (i + 2) implies #[trigger] a[i + 2 + t] == b[j + 2
            + t] by {
            assert(a[i + (t + 2)] == b[j + (t + 2)]);
        }
        lemma_block_end_local(a, i + 2, b, j + 2, depth + 1);
    } else {
        assert forall|t: int| 0 <= t < e - (i + 1) implies #[trigger] a[i + 1 + t] == b[j + 1
            + t] by {
            assert(a[i + (t + 1)] == b[j + (t + 1)]);
        }
        lemma_block_end_local(a, i + 1, b, j + 1, depth);
    }
}

/// Every token that is read from a source is sound.
#[verifier::rlimit(60)]
pub proof fn lemma_token_sound(src: Seq<char>, first: int)
    requires
        0 <= first <= src.len(),
    ensures
        match token_at(src, first) {
            Scanned::Token { token, .. } => sound(token),
            Scanned::UnexpectedEof { .. } => true,
        },
{
    reveal(token_at);
    if first < src.len() {
        let c = src[first];
        let d = char_at(src, first + 1);
        if c == '/' && d == '*' {
            match block_end(src, first + 2, 0) {
                Some(next) => {
                    lemma_block_end_closes(src, first + 2, 0);
                    let text = src.subrange(first + 2, next - 2);
                    let closed = text + seq!['*', '/'];
                    assert forall|t: int| 0 <= t < next - (first + 2) implies #[trigger] src[first
                        + 2 + t] == closed[0 + t] by {}
                    lemma_block_end_local(src, first + 2, closed, 0, 0);
                },
                None => {},
            }
        } else if c == '/' && d == '/' {
            lemma_run_end(src, first + 2, Run::Line);
            let next = run_end(src, first + 2, Run::Line);
            let text = src.subrange(first + 2, next);
            assert forall|i: int| 0 <= i < text.len() implies Run::Line.holds(
                #[trigger] text[i],
            ) by {
                assert(Run::Line.holds(src[first + 2 + i]));
            }
        } else if c == '"' {
            lemma_run_end(src, first + 1, Run::Quoted);
            let quote = run_end(src, first + 1, Run::Quoted);
            let text = src.subrange(first + 1, quote);
            assert forall|i: int| 0 <= i < text.len() implies Run::Quoted.holds(
                #[trigger] text[i],
            ) by {
                assert(Run::Quoted.holds(src[first + 1 + i]));
            }
        } else if letter(c) {
            lemma_run_end(src, first, Run::Word);
            let next = run_end(src, first, Run::Word);
            let name = src.subrange(first, next);
            assert forall|i: int| 0 <= i < name.len() implies Run::Word.holds(
                #[trigger] name[i],
            ) by {
                assert(Run::Word.holds(src[first + i]));
            }
        } else if digit(c) {
            lemma_run_end(src, first, Run::Digits);
            let whole = run_end(src, first, Run::Digits);
            if char_at(src, whole) == '.' {
                lemma_run_end(src, whole + 1, Run::Digits);
                let next = run_end(src, whole + 1, Run::Digits);
                let text = src.subrange(first, next);
                assert forall|t: int| 0 <= t < whole - first implies Run::Digits.holds(
                    #[trigger] text[t],
                ) by {
                    assert(Run::Digits.holds(src[first + t]));
                }
                lemma_run_end_is(text, 0, whole - first, Run::Digits);
                let tail = text.subrange(whole - first + 1, text.len() as int);
                assert forall|i: int| 0 <= i < tail.len() implies Run::Digits.holds(
                    #[trigger] tail[i],
                ) by {
                    assert(Run::Digits.holds(src[whole + 1 + i]));
                }
            } else {
                let text = src.subrange(first, whole);
                assert forall|i: int| 0 <= i < text.len() implies Run::Digits.holds(
                    #[trigger] text[i],
                ) by {
                    assert(Run::Digits.holds(src[first + i]));
                }
            }
        }
    }
}

} // verus!
