//! Statements that are read again from their items.
use vstd::prelude::*;

use crate::ast::{StatementKindView, StatementView};
use crate::fmt::render::{block_text, deeper, gap, statement_text};
use crate::lexer::reread::{newlines, Item};
use crate::lexer::stream::Stream;
use crate::parser::grammar::is_infix;
use crate::roundtrip::chain::{
    after_ok, atom, lemma_expression_chain, lemma_expression_reparsed, lemma_reads_end,
    lemma_reads_token, operand_ok, reads,
};
use crate::roundtrip::fits::lemma_closing_lead;
use crate::roundtrip::items::{
    block_items, closing_lead, expression_items, holds_at, indent, lead_of, lemma_holds_one,
    lemma_holds_split, listed_statements, one, signature_items, statement_items,
};
use crate::roundtrip::lines::{
    lemma_gap_again, lemma_gap_newlines, lemma_indent_newlines, lemma_newlines_add,
    lemma_newlines_known, lemma_statements_text_same, lemma_tidy_at, same_layout,
};
use crate::roundtrip::sound::{lemma_sound_statements_at, sound_statement, sound_statements, tidy};
use crate::roundtrip::types::lemma_signature_reparsed;
use crate::token::TokenView;

verus! {

/// Whether a token is one that a statement is written to start with.
pub open spec fn starts_statement(token: TokenView) -> bool {
    token is LineComment || token is BlockComment || token == TokenView::Mutable || token
        == TokenView::LeftBrace || token == TokenView::Function || token == TokenView::Return
        || atom(token) || token == TokenView::Minus || token == TokenView::ExclamationMark
}

/// Whether a statement may end before the token at index `e`, and that token is none that
/// would make what stands before it a declaration or an assignment: it stands on a new line or
/// is the end, and is no `;`, `:=` or `=`.
pub open spec fn ends_statement_at(s: Stream, e: int) -> bool {
    &&& s.on_new_line(e) || s.at(e).token == TokenView::EOF
    &&& s.at(e).token != TokenView::Semicolon
    &&& s.at(e).token != TokenView::Declare
    &&& s.at(e).token != TokenView::Assign
}

/// Whether a statement kind is written as a statement is.
pub open spec fn same_text(kind: StatementKindView, statement: StatementView, level: nat) -> bool {
    statement_text(StatementView { kind, position: statement.position }, "  "@, level)
        == statement_text(statement, "  "@, level)
}

/// What reading a statement kind again gives.
pub open spec fn kind_again(
    s: Stream,
    k: int,
    e: int,
    statement: StatementView,
    level: nat,
) -> bool {
    match s.statement_kind(k) {
        Ok((kind, k1)) => k1 == e && same_text(kind, statement, level),
        Err(_) => false,
    }
}

/// The first two tokens of a chain: an operand starts it, and an operator or an operand
/// follows.
pub proof fn lemma_chain_starts(items: Seq<Item>)
    requires
        operand_ok(items, 0, items.len() as int),
    ensures
        items.len() >= 1,
        atom(items[0].token) || items[0].token == TokenView::Minus || items[0].token
            == TokenView::ExclamationMark,
        items.len() >= 2 ==> is_infix(items[1].token) || atom(items[1].token) || items[1].token
            == TokenView::Minus || items[1].token == TokenView::ExclamationMark,
{
    if items.len() >= 2 {
        if atom(items[0].token) {
            assert(after_ok(items, 1, items.len() as int));
        } else {
            assert(operand_ok(items, 1, items.len() as int));
        }
    }
}

/// The items of a sound statement are not empty; the first stands after the whitespace given
/// and is a token that a statement starts with.
pub proof fn lemma_statement_first(statement: StatementView, lead: Seq<char>, level: nat)
    requires
        sound_statement(statement),
    ensures
        statement_items(statement, lead, level).len() >= 1,
        statement_items(statement, lead, level)[0].white == lead,
        starts_statement(statement_items(statement, lead, level)[0].token),
{
    match statement.kind {
        StatementKindView::Expression(value) => {
            lemma_expression_chain(value, lead);
            lemma_chain_starts(expression_items(value, lead));
        },
        _ => {},
    }
}

/// A comment is read again from its item.
pub proof fn lemma_comment_again(
    s: Stream,
    items: Seq<Item>,
    tail: Seq<char>,
    k: int,
    statement: StatementView,
    lead: Seq<char>,
    level: nat,
)
    requires
        reads(s, items, tail),
        statement.kind is Comment,
        holds_at(items, k, statement_items(statement, lead, level)),
    ensures
        kind_again(s, k, k + statement_items(statement, lead, level).len(), statement, level),
{
    let written = statement_items(statement, lead, level);
    assert(items[k] == written[0]) by {
        assert(items.subrange(k, k + written.len())[0] == written[0]);
    }
    lemma_reads_token(s, items, tail, k);
}

/// A declaration is read again from its items.
#[verifier::rlimit(60)]
pub proof fn lemma_declaration_again(
    s: Stream,
    items: Seq<Item>,
    tail: Seq<char>,
    k: int,
    statement: StatementView,
    lead: Seq<char>,
    level: nat,
)
    requires
        reads(s, items, tail),
        sound_statement(statement),
        statement.kind is Declaration,
        holds_at(items, k, statement_items(statement, lead, level)),
        ends_statement_at(s, k + statement_items(statement, lead, level).len()),
    ensures
        kind_again(s, k, k + statement_items(statement, lead, level).len(), statement, level),
{
    let name = statement.kind->Declaration_name;
    let mutable = statement.kind->Declaration_mutable;
    let value = statement.kind->Declaration_value;
    let head = if mutable {
        one(lead, TokenView::Mutable) + one(" "@, TokenView::Identifier(name))
    } else {
        one(lead, TokenView::Identifier(name))
    };
    let declare = one(" "@, TokenView::Declare);
    let written = expression_items(value, " "@);
    lemma_holds_split(items, k, head + declare, written);
    lemma_holds_split(items, k, head, declare);
    let k0 = if mutable {
        k + 1
    } else {
        k
    };
    if mutable {
        lemma_holds_split(
            items,
            k,
            one(lead, TokenView::Mutable),
            one(" "@, TokenView::Identifier(name)),
        );
        lemma_holds_one(items, k, lead, TokenView::Mutable);
        lemma_holds_one(items, k + 1, " "@, TokenView::Identifier(name));
    } else {
        lemma_holds_one(items, k, lead, TokenView::Identifier(name));
    }
    lemma_holds_one(items, k0 + 1, " "@, TokenView::Declare);
    lemma_reads_token(s, items, tail, k);
    lemma_reads_token(s, items, tail, k + 1);
    lemma_reads_token(s, items, tail, k0);
    lemma_reads_token(s, items, tail, k0 + 1);
    lemma_reads_token(s, items, tail, k0 + 2);
    lemma_reads_token(s, items, tail, k0 + 2 + written.len());
    lemma_expression_reparsed(s, items, tail, k0 + 2, value, " "@);
    assert(s.declaration(k, mutable) is Ok);
}

/// An assignment is read again from its items.
pub proof fn lemma_assignment_again(
    s: Stream,
    items: Seq<Item>,
    tail: Seq<char>,
    k: int,
    statement: StatementView,
    lead: Seq<char>,
    level: nat,
)
    requires
        reads(s, items, tail),
        sound_statement(statement),
        statement.kind is Assignment,
        holds_at(items, k, statement_items(statement, lead, level)),
        ends_statement_at(s, k + statement_items(statement, lead, level).len()),
    ensures
        kind_again(s, k, k + statement_items(statement, lead, level).len(), statement, level),
{
    let name = statement.kind->Assignment_name;
    let value = statement.kind->Assignment_value;
    let head = one(lead, TokenView::Identifier(name));
    let assign = one(" "@, TokenView::Assign);
    let written = expression_items(value, " "@);
    lemma_holds_split(items, k, head + assign, written);
    lemma_holds_split(items, k, head, assign);
    lemma_holds_one(items, k, lead, TokenView::Identifier(name));
    lemma_holds_one(items, k + 1, " "@, TokenView::Assign);
    lemma_reads_token(s, items, tail, k);
    lemma_reads_token(s, items, tail, k + 1);
    lemma_reads_token(s, items, tail, k + 2);
    lemma_reads_token(s, items, tail, k + 2 + written.len());
    lemma_expression_reparsed(s, items, tail, k + 2, value, " "@);
    assert(s.assignment(k) is Ok);
}

/// A return is read again from its items.
pub proof fn lemma_return_again(
    s: Stream,
    items: Seq<Item>,
    tail: Seq<char>,
    k: int,
    statement: StatementView,
    lead: Seq<char>,
    level: nat,
)
    requires
        reads(s, items, tail),
        sound_statement(statement),
        statement.kind is Return,
        holds_at(items, k, statement_items(statement, lead, level)),
        ends_statement_at(s, k + statement_items(statement, lead, level).len()),
    ensures
        kind_again(s, k, k + statement_items(statement, lead, level).len(), statement, level),
{
    let value = statement.kind->Return_0;
    let head = one(lead, TokenView::Return);
    let written = expression_items(value, " "@);
    lemma_holds_split(items, k, head, written);
    lemma_holds_one(items, k, lead, TokenView::Return);
    lemma_reads_token(s, items, tail, k);
    lemma_reads_token(s, items, tail, k + 1);
    lemma_reads_token(s, items, tail, k + 1 + written.len());
    lemma_expression_reparsed(s, items, tail, k + 1, value, " "@);
    assert(s.return_statement(k) is Ok);
}

/// An expression that is a statement is read again from its items.
pub proof fn lemma_expression_again(
    s: Stream,
    items: Seq<Item>,
    tail: Seq<char>,
    k: int,
    statement: StatementView,
    lead: Seq<char>,
    level: nat,
)
    requires
        reads(s, items, tail),
        sound_statement(statement),
        statement.kind is Expression,
        holds_at(items, k, statement_items(statement, lead, level)),
        ends_statement_at(s, k + statement_items(statement, lead, level).len()),
    ensures
        kind_again(s, k, k + statement_items(statement, lead, level).len(), statement, level),
{
    let value = statement.kind->Expression_0;
    let written = expression_items(value, lead);
    lemma_expression_chain(value, lead);
    lemma_chain_starts(written);
    assert(items[k] == written[0]) by {
        assert(items.subrange(k, k + written.len())[0] == written[0]);
    }
    if written.len() >= 2 {
        assert(items[k + 1] == written[1]) by {
            assert(items.subrange(k, k + written.len())[1] == written[1]);
        }
    }
    lemma_reads_token(s, items, tail, k);
    lemma_reads_token(s, items, tail, k + 1);
    lemma_reads_token(s, items, tail, k + written.len());
    lemma_expression_reparsed(s, items, tail, k, value, lead);
}

/// The items of the first statements of a list are the first of the items of more of them.
#[verifier::rlimit(60)]
pub proof fn lemma_statements_prefix(
    statements: Seq<StatementView>,
    n: nat,
    total: nat,
    before: Seq<char>,
    level: nat,
)
    requires
        n <= total <= statements.len(),
        sound_statements(statements, statements.len()),
    ensures
        listed_statements(statements, n, before, level).len() <= listed_statements(
            statements,
            total,
            before,
            level,
        ).len(),
        listed_statements(statements, total, before, level).subrange(
            0,
            listed_statements(statements, n, before, level).len() as int,
        ) == listed_statements(statements, n, before, level),
        n < total ==> listed_statements(statements, n, before, level).len()
            < listed_statements(statements, total, before, level).len(),
    decreases total - n,
{
    let whole = listed_statements(statements, total, before, level);
    let part = listed_statements(statements, n, before, level);
    if n < total {
        lemma_statements_prefix(statements, n, (total - 1) as nat, before, level);
        lemma_sound_statements_at(statements, statements.len(), total - 1);
        lemma_statement_first(
            statements[total - 1],
            lead_of(statements, total - 1, before, level),
            level,
        );
        let shorter = listed_statements(statements, (total - 1) as nat, before, level);
        assert(whole.subrange(0, part.len() as int) =~= shorter.subrange(0, part.len() as int));
    } else {
        assert(whole.subrange(0, whole.len() as int) =~= whole);
    }
}

/// What reading a statement again gives: a statement with the same text, which starts on the
/// line on which its first token starts and ends on the line on which its last token ends.
pub open spec fn statement_again(
    s: Stream,
    k: int,
    e: int,
    statement: StatementView,
    level: nat,
) -> bool {
    match s.statement(k) {
        Ok((again, k1)) => {
            &&& k1 == e
            &&& statement_text(again, "  "@, level) == statement_text(statement, "  "@, level)
            &&& again.position.start.line == s.at(k).position.start.line
            &&& again.position.end.line == s.at(e - 1).position.end.line
        },
        Err(_) => false,
    }
}

/// A statement is read again from its items, as a statement with the same text.
#[verifier::rlimit(60)]
pub proof fn lemma_statement_reparsed(
    s: Stream,
    items: Seq<Item>,
    tail: Seq<char>,
    k: int,
    statement: StatementView,
    lead: Seq<char>,
    level: nat,
)
    requires
        reads(s, items, tail),
        sound_statement(statement),
        match statement.kind {
            StatementKindView::Block(inner) => tidy(inner, inner.len()),
            StatementKindView::FunctionDeclaration { body, .. } => tidy(body, body.len()),
            _ => true,
        },
        holds_at(items, k, statement_items(statement, lead, level)),
        ends_statement_at(s, k + statement_items(statement, lead, level).len()),
    ensures
        statement_again(s, k, k + statement_items(statement, lead, level).len(), statement, level),
    decreases statement, 1nat,
{
    let e = k + statement_items(statement, lead, level).len();
    lemma_statement_first(statement, lead, level);
    lemma_reads_token(s, items, tail, e);
    match statement.kind {
        StatementKindView::Comment { .. } => {
            lemma_comment_again(s, items, tail, k, statement, lead, level);
        },
        StatementKindView::Declaration { .. } => {
            lemma_declaration_again(s, items, tail, k, statement, lead, level);
        },
        StatementKindView::Assignment { .. } => {
            lemma_assignment_again(s, items, tail, k, statement, lead, level);
        },
        StatementKindView::Return(_) => {
            lemma_return_again(s, items, tail, k, statement, lead, level);
        },
        StatementKindView::Expression(_) => {
            lemma_expression_again(s, items, tail, k, statement, lead, level);
        },
        StatementKindView::Block(inner) => {
            lemma_block_reparsed(s, items, tail, k, inner, lead, level);
            assert(items[k] == block_items(inner, lead, level)[0]) by {
                assert(items.subrange(k, e)[0] == block_items(inner, lead, level)[0]);
            }
            lemma_reads_token(s, items, tail, k);
        },
        StatementKindView::FunctionDeclaration { name, typ, body } => {
            let none = Seq::<char>::empty();
            let keyword = one(lead, TokenView::Function);
            let named = one(" "@, TokenView::Identifier(name));
            let head = signature_items(typ, none);
            let block = block_items(body, " "@, level);
            lemma_holds_split(items, k, keyword + named + head, block);
            lemma_holds_split(items, k, keyword + named, head);
            lemma_holds_split(items, k, keyword, named);
            lemma_holds_one(items, k, lead, TokenView::Function);
            lemma_holds_one(items, k + 1, " "@, TokenView::Identifier(name));
            let k3 = k + 2 + head.len();
            assert(items[k3] == block[0]) by {
                assert(items.subrange(k3, k3 + block.len())[0] == block[0]);
            }
            lemma_reads_token(s, items, tail, k);
            lemma_reads_token(s, items, tail, k + 1);
            lemma_reads_token(s, items, tail, k + 2);
            lemma_reads_token(s, items, tail, k3);
            lemma_signature_reparsed(s, items, tail, k + 2, typ, none);
            lemma_block_reparsed(s, items, tail, k3, body, " "@, level);
            assert(s.function_declaration(k) is Ok);
        },
    }
}

/// A block is read again from its items, as a block with the same text.
#[verifier::rlimit(60)]
pub proof fn lemma_block_reparsed(
    s: Stream,
    items: Seq<Item>,
    tail: Seq<char>,
    k: int,
    statements: Seq<StatementView>,
    lead: Seq<char>,
    level: nat,
)
    requires
        reads(s, items, tail),
        sound_statements(statements, statements.len()),
        tidy(statements, statements.len()),
        holds_at(items, k, block_items(statements, lead, level)),
    ensures
        match s.block(k) {
            Ok((again, k1)) => {
                &&& k1 == k + block_items(statements, lead, level).len()
                &&& block_text(again, "  "@, level) == block_text(statements, "  "@, level)
            },
            Err(_) => false,
        },
    decreases statements, statements.len() + 2,
{
    lemma_closing_lead(statements.len(), level);
    let white = closing_lead(statements.len(), level);
    let inner = deeper(level);
    let open = one(lead, TokenView::LeftBrace);
    let list = listed_statements(statements, statements.len(), "\n"@, inner);
    let close = one(white, TokenView::RightBrace);
    lemma_holds_split(items, k, open + list, close);
    lemma_holds_split(items, k, open, list);
    lemma_holds_one(items, k, lead, TokenView::LeftBrace);
    let k2 = k + 1 + list.len();
    lemma_holds_one(items, k2, white, TokenView::RightBrace);
    lemma_reads_token(s, items, tail, k);
    lemma_reads_token(s, items, tail, k + 1);
    lemma_reads_token(s, items, tail, k2);
    if statements.len() > 0 {
        lemma_statements_reparsed(
            s,
            items,
            tail,
            k + 1,
            statements,
            "\n"@,
            inner,
            0,
            Seq::empty(),
        );
        let again = s.statements(k + 1, Seq::empty())->Ok_0.0;
        lemma_statements_text_same(again, statements, inner);
    } else {
        let none = Seq::<StatementView>::empty();
        assert(statements =~= none);
    }
}

/// What reading one statement of a list again gives, with the statements before it read
/// already: the statement, with the text and the gap before it that it was written with.
pub open spec fn stepped(
    s: Stream,
    k: int,
    e: int,
    statements: Seq<StatementView>,
    level: nat,
    j: nat,
    done: Seq<StatementView>,
) -> bool {
    match s.statement(k) {
        Ok((again, k1)) => {
            &&& k1 == e
            &&& same_layout(done.push(again), statements, j + 1, level)
            &&& again.position.end.line == s.at(e - 1).position.end.line
        },
        Err(_) => false,
    }
}

/// The statement at index `j` of a list is read again from its items, after the statements
/// before it.
#[verifier::rlimit(60)]
pub proof fn lemma_statement_step(
    s: Stream,
    items: Seq<Item>,
    tail: Seq<char>,
    k0: int,
    statements: Seq<StatementView>,
    before: Seq<char>,
    level: nat,
    j: nat,
    done: Seq<StatementView>,
)
    requires
        reads(s, items, tail),
        sound_statements(statements, statements.len()),
        tidy(statements, statements.len()),
        holds_at(items, k0, listed_statements(statements, statements.len(), before, level)),
        ends_statement_at(
            s,
            k0 + listed_statements(statements, statements.len(), before, level).len(),
        ),
        j < statements.len(),
        done.len() == j,
        same_layout(done, statements, j, level),
        j >= 1 ==> done[j - 1].position.end.line == s.at(
            k0 + listed_statements(statements, j, before, level).len() - 1,
        ).position.end.line,
    ensures
        stepped(
            s,
            k0 + listed_statements(statements, j, before, level).len(),
            k0 + listed_statements(statements, j + 1, before, level).len(),
            statements,
            level,
            j,
            done,
        ),
        0 <= k0 + listed_statements(statements, j, before, level).len() < k0
            + listed_statements(statements, j + 1, before, level).len() <= k0
            + listed_statements(statements, statements.len(), before, level).len(),
        starts_statement(
            s.at(k0 + listed_statements(statements, j, before, level).len()).token,
        ),
        s.left(k0 + listed_statements(statements, j + 1, before, level).len()) < s.left(
            k0 + listed_statements(statements, j, before, level).len(),
        ),
    decreases statements, 0nat,
{
    let total = statements.len();
    let whole = listed_statements(statements, total, before, level);
    let earlier = listed_statements(statements, j, before, level);
    let through = listed_statements(statements, j + 1, before, level);
    let k = k0 + earlier.len();
    let e = k0 + through.len();
    let lead = lead_of(statements, j as int, before, level);
    let statement = statements[j as int];
    let written = statement_items(statement, lead, level);
    lemma_statements_prefix(statements, j + 1, total, before, level);
    lemma_statements_prefix(statements, j, j + 1, before, level);
    lemma_sound_statements_at(statements, total, j as int);
    lemma_tidy_at(statements, total, j as int);
    lemma_statement_first(statement, lead, level);
    assert(through == earlier + written);
    assert(holds_at(items, k0, through)) by {
        assert forall|u: int| 0 <= u < through.len() implies items.subrange(
            k0,
            k0 + through.len(),
        )[u] == whole.subrange(0, through.len() as int)[u] by {
            assert(items.subrange(k0, k0 + whole.len())[u] == whole[u]);
        }
        assert(items.subrange(k0, k0 + through.len()) =~= whole.subrange(
            0,
            through.len() as int,
        ));
    }
    lemma_holds_split(items, k0, earlier, written);
    assert(items[k] == written[0]) by {
        assert(items.subrange(k, k + written.len())[0] == written[0]);
    }
    lemma_reads_token(s, items, tail, k);
    lemma_reads_token(s, items, tail, e);
    lemma_newlines_known();
    // what stands after the statement: the next one on a new line, or what closes the list
    if j + 1 < total {
        let next_lead = lead_of(statements, j as int + 1, before, level);
        let next = statement_items(statements[j as int + 1], next_lead, level);
        let further = listed_statements(statements, j + 2, before, level);
        lemma_statements_prefix(statements, j + 2, total, before, level);
        lemma_sound_statements_at(statements, total, j as int + 1);
        lemma_tidy_at(statements, total, j as int + 1);
        lemma_statement_first(statements[j as int + 1], next_lead, level);
        assert(further == through + next);
        assert(items[e] == whole[through.len() as int]) by {
            assert(items.subrange(k0, k0 + whole.len())[through.len() as int]
                == whole[through.len() as int]);
        }
        assert(whole[through.len() as int] == further[through.len() as int]) by {
            assert(whole.subrange(0, further.len() as int)[through.len() as int]
                == further[through.len() as int]);
        }
        assert(further[through.len() as int] == next[0]);
        lemma_gap_newlines(statements[j as int], statements[j as int + 1]);
        lemma_indent_newlines(level);
        lemma_newlines_add(gap(statements[j as int], statements[j as int + 1]), indent(level));
    }
    lemma_statement_reparsed(s, items, tail, k, statement, lead, level);
    let again = s.statement(k)->Ok_0.0;
    let more = done.push(again);
    assert(same_layout(more, statements, j + 1, level)) by {
        assert forall|i: int| 0 <= i < j + 1 implies statement_text(
            #[trigger] more[i],
            "  "@,
            level,
        ) == statement_text(statements[i], "  "@, level) by {
            if i < j {
                assert(more[i] == done[i]);
            }
        }
        assert forall|i: int| 1 <= i < j + 1 implies gap(more[i - 1], #[trigger] more[i]) == gap(
            statements[i - 1],
            statements[i],
        ) by {
            if i < j {
                assert(more[i] == done[i]);
                assert(more[i - 1] == done[i - 1]);
                assert(gap(done[i - 1], done[i]) == gap(statements[i - 1], statements[i]));
            } else {
                assert(more[i - 1] == done[j - 1]);
                lemma_gap_newlines(statements[j - 1], statements[j as int]);
                lemma_indent_newlines(level);
                lemma_newlines_add(gap(statements[j - 1], statements[j as int]), indent(level));
                lemma_gap_again(statements[j - 1], statements[j as int], done[j - 1], again);
            }
        }
    }
}

/// The statements of a block are read again from their items, from the one at index `j` on.
#[verifier::rlimit(60)]
pub proof fn lemma_statements_reparsed(
    s: Stream,
    items: Seq<Item>,
    tail: Seq<char>,
    k0: int,
    statements: Seq<StatementView>,
    before: Seq<char>,
    level: nat,
    j: nat,
    done: Seq<StatementView>,
)
    requires
        reads(s, items, tail),
        sound_statements(statements, statements.len()),
        tidy(statements, statements.len()),
        holds_at(items, k0, listed_statements(statements, statements.len(), before, level)),
        ends_statement_at(
            s,
            k0 + listed_statements(statements, statements.len(), before, level).len(),
        ),
        s.at(
            k0 + listed_statements(statements, statements.len(), before, level).len(),
        ).token == TokenView::RightBrace,
        j < statements.len(),
        done.len() == j,
        same_layout(done, statements, j, level),
        j >= 1 ==> done[j - 1].position.end.line == s.at(
            k0 + listed_statements(statements, j, before, level).len() - 1,
        ).position.end.line,
    ensures
        match s.statements(k0 + listed_statements(statements, j, before, level).len(), done) {
            Ok((again, k1)) => {
                &&& k1 == k0 + listed_statements(statements, statements.len(), before, level).len()
                &&& again.len() == statements.len()
                &&& same_layout(again, statements, statements.len(), level)
            },
            Err(_) => false,
        },
    decreases statements, statements.len() - j + 1,
{
    lemma_statement_step(s, items, tail, k0, statements, before, level, j, done);
    let k = k0 + listed_statements(statements, j, before, level).len();
    let again = s.statement(k)->Ok_0.0;
    if j + 1 < statements.len() {
        lemma_statements_reparsed(
            s,
            items,
            tail,
            k0,
            statements,
            before,
            level,
            j + 1,
            done.push(again),
        );
    }
}

/// The statements of a file are read again from their items, from the one at index `j` on.
#[verifier::rlimit(60)]
pub proof fn lemma_file_reparsed(
    s: Stream,
    items: Seq<Item>,
    tail: Seq<char>,
    statements: Seq<StatementView>,
    j: nat,
    done: Seq<StatementView>,
)
    requires
        reads(s, items, tail),
        newlines(tail) > 0,
        sound_statements(statements, statements.len()),
        tidy(statements, statements.len()),
        items == listed_statements(statements, statements.len(), Seq::empty(), 0),
        j < statements.len(),
        done.len() == j,
        same_layout(done, statements, j, 0),
        j >= 1 ==> done[j - 1].position.end.line == s.at(
            listed_statements(statements, j, Seq::empty(), 0).len() - 1,
        ).position.end.line,
    ensures
        match s.file(listed_statements(statements, j, Seq::empty(), 0).len() as int, done) {
            Ok(again) => {
                &&& again.len() == statements.len()
                &&& same_layout(again, statements, statements.len(), 0)
            },
            Err(_) => false,
        },
    decreases statements.len() - j,
{
    let none = Seq::<char>::empty();
    assert(items.subrange(0, items.len() as int) =~= items);
    lemma_reads_token(s, items, tail, items.len() as int);
    lemma_statement_step(s, items, tail, 0, statements, none, 0, j, done);
    let k = listed_statements(statements, j, none, 0).len() as int;
    let again = s.statement(k)->Ok_0.0;
    if j + 1 < statements.len() {
        lemma_file_reparsed(s, items, tail, statements, j + 1, done.push(again));
    } else {
        lemma_reads_end(s, items, tail);
    }
}

} // verus!
