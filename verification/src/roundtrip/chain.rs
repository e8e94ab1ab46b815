//! Expressions that are written without parentheses: operands and the operators between them.
//! Whatever tree the parser folds such a chain into, the tree is written as the chain again.
use vstd::prelude::*;

use crate::ast::{ExpressionKindView, ExpressionView};
use crate::fmt::render::expression_text;
use crate::lexer::reread::{emit, newlines, read_back, Item};
use crate::lexer::stream::{Ending, Stream};
use crate::parser::error::ErrorView;
use crate::parser::grammar::is_infix;
use crate::parser::precedence::Precedence;
use crate::roundtrip::items::{expression_items, one};
use crate::roundtrip::sound::sound_expression;
use crate::roundtrip::text::{lemma_emit_concat, lemma_emit_one, lemma_expression_emits};
use crate::token::TokenView;

verus! {

/// Whether the stream is what is read of the items, written one after the other from the
/// first line on and followed by the whitespace `tail`.
#[verifier::opaque]
pub open spec fn reads(s: Stream, items: Seq<Item>, tail: Seq<char>) -> bool {
    match s.end {
        Ending::Eof(eof) => read_back(items, tail, 1, s.tokens, eof),
        Ending::Failure(_) => false,
    }
}

/// What the parser sees of items that the stream reads: their tokens, and a new line where the
/// whitespace before a token holds a line feed.
pub proof fn lemma_reads_token(s: Stream, items: Seq<Item>, tail: Seq<char>, m: int)
    requires
        reads(s, items, tail),
        0 <= m <= items.len(),
    ensures
        s.tokens.len() == items.len(),
        m < items.len() ==> s.at(m).token == items[m].token,
        m < items.len() ==> s.on_new_line(m) == (newlines(items[m].white) > 0),
        m < items.len() ==> s.at(m).position.start.line == s.at(m - 1).position.end.line
            + newlines(items[m].white),
        m == items.len() ==> s.at(m).token == TokenView::EOF,
        m == items.len() ==> s.on_new_line(m) == (newlines(tail) > 0),
        s.advance(m) == Ok::<int, ErrorView>(m + 1),
        s.left(m) == items.len() - m,
{
    reveal(reads);
}

/// A stream that reads items ends with the end of the source.
pub proof fn lemma_reads_end(s: Stream, items: Seq<Item>, tail: Seq<char>)
    requires
        reads(s, items, tail),
    ensures
        s.end is Eof,
        s.tokens.len() == items.len(),
{
    reveal(reads);
}

/// A space holds no line feed.
pub proof fn lemma_space()
    ensures
        newlines(" "@) == 0,
        newlines(Seq::<char>::empty()) == 0,
{
    reveal_strlit(" ");
    let none = Seq::<char>::empty();
    assert(" "@ =~= seq![' ']);
    assert(" "@.drop_last() =~= none);
    assert(" "@.last() == ' ');
    assert(newlines(none) == 0);
    assert(newlines(" "@) == newlines(" "@.drop_last()));
}

/// Whether a token is an operand by itself: an identifier or a literal.
pub open spec fn atom(token: TokenView) -> bool {
    token is Identifier || token is Integer || token is Float || token is String || token
        == TokenView::True || token == TokenView::False
}

/// Whether an operand starts at index `k` of the items and a chain goes on from it up to
/// index `e`: `-` and `!` stand right before their operands.
pub open spec fn operand_ok(items: Seq<Item>, k: int, e: int) -> bool
    decreases e - k, 1nat,
{
    if 0 <= k < e <= items.len() {
        let token = items[k].token;
        if atom(token) {
            after_ok(items, k + 1, e)
        } else if token == TokenView::Minus || token == TokenView::ExclamationMark {
            k + 1 < e && items[k + 1].white == Seq::<char>::empty() && operand_ok(
                items,
                k + 1,
                e,
            )
        } else {
            false
        }
    } else {
        false
    }
}

/// Whether a chain that stands after an operand at index `k` goes on up to index `e`: it ends
/// there, or an operator with a space on each side and an operand follow.
pub open spec fn after_ok(items: Seq<Item>, k: int, e: int) -> bool
    decreases e - k, 0nat,
{
    if k == e {
        0 <= e <= items.len()
    } else if 0 <= k < e <= items.len() {
        &&& is_infix(items[k].token)
        &&& items[k].white == " "@
        &&& k + 1 < e
        &&& items[k + 1].white == " "@
        &&& operand_ok(items, k + 1, e)
    } else {
        false
    }
}

/// The items from one index to another are written as those up to an index between the two,
/// then those from it on.
pub proof fn lemma_emit_split(items: Seq<Item>, a: int, b: int, c: int)
    requires
        0 <= a <= b <= c <= items.len(),
    ensures
        emit(items.subrange(a, c)) == emit(items.subrange(a, b)) + emit(items.subrange(b, c)),
{
    assert(items.subrange(a, c) =~= items.subrange(a, b) + items.subrange(b, c));
    lemma_emit_concat(items.subrange(a, b), items.subrange(b, c));
}

/// The item at an index is written as its whitespace and its token.
pub proof fn lemma_emit_at(items: Seq<Item>, k: int)
    requires
        0 <= k < items.len(),
    ensures
        emit(items.subrange(k, k + 1)) == items[k].white + items[k].token.literal(),
{
    assert(items.subrange(k, k + 1) =~= seq![items[k]]);
    lemma_emit_one(items[k].white, items[k].token);
}

/// What parsing a chain gives: an expression that is written as the chain up to where parsing
/// stopped, which is at the end of the chain or before an operator that binds no more
/// strongly than `min`.
pub open spec fn chain_parsed(
    s: Stream,
    items: Seq<Item>,
    k: int,
    e: int,
    min: Precedence,
    parsed: Result<(ExpressionView, int), ErrorView>,
) -> bool {
    match parsed {
        Ok((expression, k1)) => {
            &&& k < k1 <= e
            &&& after_ok(items, k1, e)
            &&& items[k].white + expression_text(expression) == emit(items.subrange(k, k1))
            &&& k1 == e || !(min.level() < Precedence::of_token(items[k1].token).level())
        },
        Err(_) => false,
    }
}

/// The parser reads a chain as an expression that is written as the chain.
#[verifier::rlimit(60)]
pub proof fn lemma_chain_expression(
    s: Stream,
    items: Seq<Item>,
    tail: Seq<char>,
    k: int,
    e: int,
    min: Precedence,
)
    requires
        reads(s, items, tail),
        operand_ok(items, k, e),
        !s.continues(e, Precedence::Lowest),
    ensures
        chain_parsed(s, items, k, e, min, s.expression(k, min)),
    decreases s.left(k), 3nat,
{
    lemma_reads_token(s, items, tail, k);
    lemma_chain_prefix(s, items, tail, k, e);
    match s.prefix(k) {
        Ok((left, k1)) => {
            lemma_reads_token(s, items, tail, k1);
            lemma_chain_climb(s, items, tail, k, k1, e, min, left);
        },
        Err(_) => {},
    }
}

/// The parser reads the operand at the start of a chain.
#[verifier::rlimit(60)]
pub proof fn lemma_chain_prefix(s: Stream, items: Seq<Item>, tail: Seq<char>, k: int, e: int)
    requires
        reads(s, items, tail),
        operand_ok(items, k, e),
        !s.continues(e, Precedence::Lowest),
    ensures
        match s.prefix(k) {
            Ok((expression, k1)) => {
                &&& k < k1 <= e
                &&& after_ok(items, k1, e)
                &&& items[k].white + expression_text(expression) == emit(
                    items.subrange(k, k1),
                )
            },
            Err(_) => false,
        },
    decreases s.left(k), 2nat,
{
    lemma_reads_token(s, items, tail, k);
    lemma_emit_at(items, k);
    let token = items[k].token;
    if atom(token) {
        assert(s.prefix(k) is Ok);
        let leaf = s.prefix(k)->Ok_0.0;
        assert(expression_text(leaf) == token.literal());
    } else {
        lemma_reads_token(s, items, tail, k + 1);
        lemma_chain_expression(s, items, tail, k + 1, e, Precedence::Prefix);
        let inner = s.expression(k + 1, Precedence::Prefix);
        assert(chain_parsed(s, items, k + 1, e, Precedence::Prefix, inner));
        let right = inner->Ok_0.0;
        let k2 = inner->Ok_0.1;
        lemma_emit_split(items, k, k + 1, k2);
        lemma_prefix_text(items[k].white, token, right, emit(items.subrange(k + 1, k2)));
    }
}

/// The text of an operator before an operand, after whitespace.
proof fn lemma_prefix_text(
    white: Seq<char>,
    operator: TokenView,
    right: ExpressionView,
    written: Seq<char>,
)
    requires
        Seq::<char>::empty() + expression_text(right) == written,
    ensures
        white + (operator.literal() + expression_text(right)) == white + operator.literal()
            + written,
{
    assert(Seq::<char>::empty() + expression_text(right) =~= expression_text(right));
    assert(white + (operator.literal() + expression_text(right)) =~= white + operator.literal()
        + written);
}

/// The text of two operands and the operator between them, after whitespace.
proof fn lemma_infix_text(
    white: Seq<char>,
    left: Seq<char>,
    operator: Seq<char>,
    right: Seq<char>,
    one: Seq<char>,
)
    ensures
        white + (left + one + operator + one + right) == white + left + (one + operator) + (one
            + right),
{
    assert(white + (left + one + operator + one + right) =~= white + left + (one + operator) + (
    one + right));
}

/// The parser folds the operators of a chain, and their operands, onto the operand before them.
#[verifier::rlimit(60)]
pub proof fn lemma_chain_climb(
    s: Stream,
    items: Seq<Item>,
    tail: Seq<char>,
    k0: int,
    k: int,
    e: int,
    min: Precedence,
    left: ExpressionView,
)
    requires
        reads(s, items, tail),
        0 <= k0 < k <= e,
        after_ok(items, k, e),
        items[k0].white + expression_text(left) == emit(items.subrange(k0, k)),
        !s.continues(e, Precedence::Lowest),
    ensures
        match s.climb(k, min, left) {
            Ok((expression, k1)) => {
                &&& k <= k1 <= e
                &&& after_ok(items, k1, e)
                &&& items[k0].white + expression_text(expression) == emit(
                    items.subrange(k0, k1),
                )
                &&& k1 == e || !(min.level() < Precedence::of_token(items[k1].token).level())
            },
            Err(_) => false,
        },
    decreases s.left(k), 2nat,
{
    lemma_space();
    lemma_reads_token(s, items, tail, k);
    if s.continues(k, min) {
        assert(k < e);
        lemma_reads_token(s, items, tail, k + 1);
        let operator = items[k].token;
        lemma_chain_expression(s, items, tail, k + 1, e, Precedence::of_token(operator));
        let inner = s.expression(k + 1, Precedence::of_token(operator));
        assert(chain_parsed(s, items, k + 1, e, Precedence::of_token(operator), inner));
        let right = inner->Ok_0.0;
        let k2 = inner->Ok_0.1;
        assert(s.infix(k, left) is Ok);
        let folded = s.infix(k, left)->Ok_0.0;
        assert(s.infix(k, left)->Ok_0.1 == k2);
        assert(expression_text(folded) == expression_text(left) + " "@ + operator.literal()
            + " "@ + expression_text(right));
        lemma_emit_at(items, k);
        lemma_emit_split(items, k0, k, k + 1);
        lemma_emit_split(items, k0, k + 1, k2);
        lemma_infix_text(
            items[k0].white,
            expression_text(left),
            operator.literal(),
            expression_text(right),
            " "@,
        );
        lemma_reads_token(s, items, tail, k2);
        lemma_chain_climb(s, items, tail, k0, k2, e, min, folded);
    }
}

/// Whether a chain stands at a place depends on the items at that place only.
pub proof fn lemma_chain_window(a: Seq<Item>, i: int, b: Seq<Item>, j: int, n: int, t: int)
    requires
        0 <= t <= n,
        0 <= i,
        0 <= j,
        i + n <= a.len(),
        j + n <= b.len(),
        forall|u: int| 0 <= u < n ==> #[trigger] a[i + u] == b[j + u],
    ensures
        operand_ok(a, i + t, i + n) == operand_ok(b, j + t, j + n),
        after_ok(a, i + t, i + n) == after_ok(b, j + t, j + n),
    decreases n - t,
{
    if t < n {
        assert(a[i + t] == b[j + t]);
        lemma_chain_window(a, i, b, j, n, t + 1);
        if t + 1 < n {
            assert(a[i + (t + 1)] == b[j + (t + 1)]);
        }
    }
}

/// A chain that is followed by an operator and a chain is a chain with them.
pub proof fn lemma_chain_extends(left: Seq<Item>, more: Seq<Item>, k: int)
    requires
        0 <= k <= left.len(),
        after_ok(left + more, left.len() as int, (left + more).len() as int),
    ensures
        operand_ok(left, k, left.len() as int) ==> operand_ok(
            left + more,
            k,
            (left + more).len() as int,
        ),
        after_ok(left, k, left.len() as int) ==> after_ok(
            left + more,
            k,
            (left + more).len() as int,
        ),
    decreases left.len() - k,
{
    let whole = left + more;
    if k < left.len() {
        assert(whole[k] == left[k]);
        lemma_chain_extends(left, more, k + 1);
        if k + 1 < left.len() {
            assert(whole[k + 1] == left[k + 1]);
        }
    }
}

/// The items of a sound expression are a chain, the first of them after the whitespace given.
#[verifier::rlimit(60)]
pub proof fn lemma_expression_chain(expression: ExpressionView, lead: Seq<char>)
    requires
        sound_expression(expression),
    ensures
        expression_items(expression, lead).len() >= 1,
        expression_items(expression, lead)[0].white == lead,
        operand_ok(
            expression_items(expression, lead),
            0,
            expression_items(expression, lead).len() as int,
        ),
    decreases expression,
{
    let whole = expression_items(expression, lead);
    let none = Seq::<char>::empty();
    match expression.kind {
        ExpressionKindView::Prefix { operator, right } => {
            let inner = expression_items(*right, none);
            lemma_expression_chain(*right, none);
            assert forall|u: int| 0 <= u < inner.len() implies #[trigger] inner[0 + u]
                == whole[1 + u] by {}
            lemma_chain_window(inner, 0, whole, 1, inner.len() as int, 0);
            assert(whole[1] == inner[0]);
        },
        ExpressionKindView::Infix { left, operator, right } => {
            let first = expression_items(*left, lead);
            let second = expression_items(*right, " "@);
            let more = one(" "@, operator) + second;
            lemma_expression_chain(*left, lead);
            lemma_expression_chain(*right, " "@);
            assert(whole =~= first + more);
            let at = first.len() as int;
            assert forall|u: int| 0 <= u < second.len() implies #[trigger] second[0 + u]
                == whole[at + 1 + u] by {}
            lemma_chain_window(second, 0, whole, at + 1, second.len() as int, 0);
            assert(whole[at + 1] == second[0]);
            assert(whole[at].token == operator);
            assert(after_ok(whole, at, whole.len() as int));
            lemma_chain_extends(first, more, 0);
            assert(whole[0] == first[0]);
        },
        _ => {
            assert(after_ok(whole, 1, 1));
        },
    }
}

/// Two texts that are equal after the same text are equal.
pub proof fn lemma_cancel(a: Seq<char>, x: Seq<char>, y: Seq<char>)
    requires
        a + x == a + y,
    ensures
        x == y,
{
    assert((a + x).len() == a.len() + x.len());
    assert((a + y).len() == a.len() + y.len());
    assert forall|t: int| 0 <= t < x.len() implies x[t] == y[t] by {
        assert((a + x)[a.len() + t] == x[t]);
        assert((a + y)[a.len() + t] == y[t]);
    }
    assert(x =~= y);
}

/// Where the items of a sound expression are read, and no operator follows them, the parser
/// reads an expression from them that has the same text.
#[verifier::rlimit(60)]
pub proof fn lemma_expression_reparsed(
    s: Stream,
    items: Seq<Item>,
    tail: Seq<char>,
    k: int,
    expression: ExpressionView,
    lead: Seq<char>,
)
    requires
        reads(s, items, tail),
        sound_expression(expression),
        0 <= k,
        k + expression_items(expression, lead).len() <= items.len(),
        items.subrange(
            k,
            k + expression_items(expression, lead).len(),
        ) == expression_items(expression, lead),
        !s.continues(
            k + expression_items(expression, lead).len(),
            Precedence::Lowest,
        ),
    ensures
        match s.expression(k, Precedence::Lowest) {
            Ok((again, k1)) => {
                &&& k1 == k + expression_items(expression, lead).len()
                &&& expression_text(again) == expression_text(expression)
            },
            Err(_) => false,
        },
{
    let written = expression_items(expression, lead);
    let e = k + written.len();
    lemma_expression_chain(expression, lead);
    assert forall|u: int| 0 <= u < written.len() implies #[trigger] written[0 + u] == items[k
        + u] by {
        assert(items.subrange(k, e)[u] == items[k + u]);
    }
    lemma_chain_window(written, 0, items, k, written.len() as int, 0);
    lemma_chain_expression(s, items, tail, k, e, Precedence::Lowest);
    let parsed = s.expression(k, Precedence::Lowest);
    let again = parsed->Ok_0.0;
    let k1 = parsed->Ok_0.1;
    assert(k1 == e);
    lemma_expression_emits(expression, lead);
    assert(items[k] == written[0int + 0int]);
    lemma_cancel(lead, expression_text(again), expression_text(expression));
}

} // verus!
