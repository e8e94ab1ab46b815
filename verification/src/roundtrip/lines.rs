//! Line feeds in the whitespace that the formatter writes, and the gaps between statements.
use vstd::prelude::*;

use crate::ast::{StatementKindView, StatementView};
use crate::fmt::render::{gap, laid_out, repeat, statement_text, statement_texts, statements_text};
use crate::lexer::reread::newlines;
use crate::roundtrip::items::indent;
use crate::roundtrip::sound::tidy;
use crate::roundtrip::text::lemma_spacing;

verus! {

/// The line feeds of two texts, one after the other, are those of the one and of the other.
pub proof fn lemma_newlines_add(a: Seq<char>, b: Seq<char>)
    ensures
        newlines(a + b) == newlines(a) + newlines(b),
    decreases b.len(),
{
    if b.len() == 0 {
        assert(a + b =~= a);
    } else {
        lemma_newlines_add(a, b.drop_last());
        assert((a + b).drop_last() =~= a + b.drop_last());
        assert((a + b).last() == b.last());
    }
}

/// The line feeds of the whitespace that the formatter writes.
pub proof fn lemma_newlines_known()
    ensures
        newlines(Seq::<char>::empty()) == 0,
        newlines(" "@) == 0,
        newlines("  "@) == 0,
        newlines(" "@ + " "@) == 0,
        newlines("\n"@) == 1,
        newlines("\n\n"@) == 2,
        newlines("\n"@ + "\n"@) == 2,
{
    lemma_spacing();
    let none = Seq::<char>::empty();
    assert(newlines(none) == 0);
    assert(" "@.drop_last() =~= none);
    assert(newlines(" "@) == 0);
    assert("\n"@.drop_last() =~= none);
    assert(newlines("\n"@) == 1);
    lemma_newlines_add(" "@, " "@);
    lemma_newlines_add("\n"@, "\n"@);
    assert("  "@ =~= " "@ + " "@);
    assert("\n\n"@ =~= "\n"@ + "\n"@);
}

/// Indentation holds no line feed.
pub proof fn lemma_indent_newlines(level: nat)
    ensures
        newlines(indent(level)) == 0,
    decreases level,
{
    lemma_newlines_known();
    if level > 0 {
        lemma_indent_newlines((level - 1) as nat);
        lemma_newlines_add(repeat("  "@, (level - 1) as nat), "  "@);
    }
}

/// What tidiness says of the statement at an index of a list: if it is a comment, it did not
/// start on the line on which the statement before it ended; and a block in it is tidy.
pub proof fn lemma_tidy_at(statements: Seq<StatementView>, n: nat, i: int)
    requires
        tidy(statements, n),
        0 <= i < n <= statements.len(),
    ensures
        i >= 1 ==> !(statements[i].kind is Comment && statements[i].position.start.line
            == statements[i - 1].position.end.line),
        match statements[i].kind {
            StatementKindView::Block(inner) => tidy(inner, inner.len()),
            StatementKindView::FunctionDeclaration { body, .. } => tidy(
                body,
                body.len(),
            ),
            _ => true,
        },
    decreases n,
{
    if i < n - 1 {
        lemma_tidy_at(statements, (n - 1) as nat, i);
    }
}

/// The gap between two statements of a tidy list holds one line feed, or two where the second
/// started two or more lines after the first ended.
pub proof fn lemma_gap_newlines(first: StatementView, second: StatementView)
    requires
        !(second.kind is Comment && second.position.start.line == first.position.end.line),
    ensures
        newlines(gap(first, second)) == if second.position.start.line
            - first.position.end.line >= 2 {
            2nat
        } else {
            1nat
        },
        gap(first, second).len() >= 1,
        gap(first, second)[0] == '\n',
{
    lemma_newlines_known();
    lemma_spacing();
}

/// Two statements that were read as many lines apart as their gap holds line feeds have that
/// gap again.
pub proof fn lemma_gap_again(
    first: StatementView,
    second: StatementView,
    first_again: StatementView,
    second_again: StatementView,
)
    requires
        !(second.kind is Comment && second.position.start.line == first.position.end.line),
        second_again.position.start.line - first_again.position.end.line == newlines(
            gap(first, second),
        ),
    ensures
        gap(first_again, second_again) == gap(first, second),
{
    lemma_gap_newlines(first, second);
}

/// Whether the first `n` statements of two lists have the same texts and the same gaps.
pub open spec fn same_layout(
    again: Seq<StatementView>,
    written: Seq<StatementView>,
    n: nat,
    level: nat,
) -> bool {
    &&& n <= again.len()
    &&& n <= written.len()
    &&& forall|i: int|
        0 <= i < n ==> statement_text(#[trigger] again[i], "  "@, level) == statement_text(
            written[i],
            "  "@,
            level,
        )
    &&& forall|i: int|
        1 <= i < n ==> gap(again[i - 1], #[trigger] again[i]) == gap(written[i - 1], written[i])
}

/// Lists of statements with the same texts and gaps are laid out alike.
pub proof fn lemma_laid_out_same(
    again: Seq<StatementView>,
    written: Seq<StatementView>,
    n: nat,
    level: nat,
)
    requires
        same_layout(again, written, n, level),
    ensures
        laid_out(again, statement_texts(again, "  "@, level), n) == laid_out(
            written,
            statement_texts(written, "  "@, level),
            n,
        ),
    decreases n,
{
    if n >= 1 {
        assert(same_layout(again, written, (n - 1) as nat, level));
        lemma_laid_out_same(again, written, (n - 1) as nat, level);
        assert(statement_text(again[n - 1], "  "@, level) == statement_text(
            written[n - 1],
            "  "@,
            level,
        ));
        if n >= 2 {
            assert(gap(again[n - 2], again[n - 1]) == gap(written[n - 2], written[n - 1]));
        }
    }
}

/// Lists of statements of one length with the same texts and gaps have the same text.
pub proof fn lemma_statements_text_same(
    again: Seq<StatementView>,
    written: Seq<StatementView>,
    level: nat,
)
    requires
        again.len() == written.len(),
        same_layout(again, written, written.len(), level),
    ensures
        statements_text(again, "  "@, level) == statements_text(written, "  "@, level),
{
    lemma_laid_out_same(again, written, written.len(), level);
}

} // verus!
