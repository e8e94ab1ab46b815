//! The text of statements.
use vstd::prelude::*;
use vstd::string::StringExecFns;

use crate::ast::{
    Assignment, Block, Comment, Declaration, FunctionDeclaration, Return, Statement, StatementKind,
};
use crate::ast::view::{lemma_function_type, statements_view};
use crate::fmt::{Format, Formatter};
use crate::fmt::expression::format_expression;
use crate::fmt::function::format_function_head;
use crate::fmt::render::{
    block_text, expression_text, laid_out, statement_text, statement_texts, statements_text,
};

verus! {

/// The text of a comment.
pub open spec fn comment_text(comment: Comment) -> Seq<char> {
    if comment.inline {
        "//"@ + comment.comment@
    } else {
        "/*"@ + comment.comment@ + "*/"@
    }
}

/// The text of a declaration.
pub open spec fn declaration_text(declaration: Declaration) -> Seq<char> {
    (if declaration.mutable {
        "mut "@
    } else {
        Seq::empty()
    }) + declaration.name@ + " := "@ + expression_text(declaration.value@)
}

/// The text of an assignment.
pub open spec fn assignment_text(assignment: Assignment) -> Seq<char> {
    assignment.name@ + " = "@ + expression_text(assignment.value@)
}

/// The text of a return.
pub open spec fn return_text(ret: Return) -> Seq<char> {
    "return "@ + expression_text(ret.value@)
}

/// Renders a comment: a line comment after `//`, a block comment between `/*` and `*/`.
pub fn format_comment(comment: &Comment) -> (text: String)
    ensures
        text@ == comment_text(*comment),
{
    if comment.inline {
        let mut text = String::from_str("//");
        text.append(comment.comment.as_str());
        return text;
    } else {
        let mut text = String::from_str("/*");
        text.append(comment.comment.as_str());
        text.append("*/");
        return text;
    }
}

/// Renders a declaration: `mut ` if it is mutable, the name, ` := ` and the value.
pub fn format_declaration(declaration: &Declaration) -> (text: String)
    ensures
        text@ == declaration_text(*declaration),
{
    let mut buffer = String::new();
    if declaration.mutable {
        buffer.append("mut ");
        proof {
            assert(buffer@ =~= "mut "@);
        }
    }
    buffer.append(declaration.name.as_str());
    buffer.append(" := ");
    buffer.append(format_expression(&*declaration.value).as_str());
    return buffer;
}

/// Renders an assignment: the name, ` = ` and the value.
pub fn format_assignment(assignment: &Assignment) -> (text: String)
    ensures
        text@ == assignment_text(*assignment),
{
    let mut text = assignment.name.clone();
    text.append(" = ");
    text.append(format_expression(&*assignment.value).as_str());
    return text;
}

/// Renders a return: `return ` and the value.
pub fn format_return(ret: &Return) -> (text: String)
    ensures
        text@ == return_text(*ret),
{
    let mut text = String::from_str("return ");
    text.append(format_expression(&*ret.value).as_str());
    return text;
}

/// Renders a statement at the formatter's level: the indentation, then the statement.
pub fn format_statement(statement: &Statement, fmt: &mut Formatter) -> (text: String)
    ensures
        text@ == statement_text(statement@, old(fmt).unit(), old(fmt).level()),
        final(fmt).same(old(fmt)),
    decreases statement, 0nat,
{
    let mut text = fmt.indent();
    let kind = match &statement.kind {
        StatementKind::Comment(c) => format_comment(c),
        StatementKind::Declaration(d) => format_declaration(d),
        StatementKind::Assignment(a) => format_assignment(a),
        StatementKind::Block(b) => format_block(b, fmt),
        StatementKind::FunctionDeclaration(f) => {
            proof {
                lemma_function_type(f.typ);
            }
            let mut buffer = format_function_head(f);
            buffer.append(" ");
            buffer.append(format_block(&f.body, fmt).as_str());
            buffer
        },
        StatementKind::Return(r) => format_return(r),
        StatementKind::Expression(e) => format_expression(e),
    };
    text.append(kind.as_str());
    return text;
}

/// Renders a block at the formatter's level: an opening brace, its statements one level deeper
/// on lines of their own, and the closing brace on a line of its own at the formatter's level.
pub fn format_block(block: &Block, fmt: &mut Formatter) -> (text: String)
    ensures
        text@ == block_text(block@, old(fmt).unit(), old(fmt).level()),
        final(fmt).same(old(fmt)),
    decreases block, 2nat,
{
    let mut buffer = String::new();
    buffer.append("{\n");
    proof {
        assert(buffer@ =~= "{\n"@);
    }
    if fmt.at_deepest() {
        // no level is deeper: the statements stay at this one, and so does the formatter
        buffer.append(format_statements(&block.statements, fmt).as_str());
    } else {
        fmt.push_indent();
        buffer.append(format_statements(&block.statements, fmt).as_str());
        fmt.pop_indent();
    }
    buffer.append("\n");
    buffer.append(fmt.indent().as_str());
    buffer.append("}");
    return buffer;
}

/// Renders a list of statements at the formatter's level, each on a line of its own; a comment
/// stays on the line of the statement it followed there, and a blank line stays where lines
/// were left blank.
pub fn format_statements(statements: &Vec<Box<Statement>>, fmt: &mut Formatter) -> (text: String)
    ensures
        text@ == statements_text(statements_view(statements@), old(fmt).unit(), old(fmt).level()),
        final(fmt).same(old(fmt)),
    decreases statements, 1nat,
{
    let ghost views = statements_view(statements@);
    let ghost parts = statement_texts(views, fmt.unit(), fmt.level());
    let mut buffer = String::new();
    let mut i: usize = 0;
    while i < statements.len()
        invariant
            i <= statements.len(),
            fmt.same(old(fmt)),
            views == statements_view(statements@),
            parts == statement_texts(views, old(fmt).unit(), old(fmt).level()),
            buffer@ == laid_out(views, parts, i as nat),
        decreases statements.len() - i,
    {
        let statement = &statements[i];
        if i > 0 {
            let previous = &statements[i - 1];
            if matches!(statement.kind, StatementKind::Comment(_)) && statement.position.start.line
                == previous.position.end.line {
                // keep comments on the same line as the statement
                buffer.append(" ");
            } else if statement.position.start.line >= 2 && statement.position.start.line - 2
                >= previous.position.end.line {
                // keep a maximum of one empty line
                buffer.append("\n\n");
            } else {
                buffer.append("\n");
            }
        }
        let text = format_statement(&**statement, fmt);
        buffer.append(text.as_str());
        proof {
            assert(Seq::<char>::empty() + text@ =~= text@);
            assert(parts[i as int] == text@);
        }
        i += 1;
    }
    return buffer;
}

impl Format for Statement {
    open spec fn rendered(&self, unit: Seq<char>, level: nat) -> Seq<char> {
        statement_text(self@, unit, level)
    }

    fn fmt(&self, fmt: &mut Formatter) -> (text: String) {
        format_statement(self, fmt)
    }
}

impl Format for Vec<Box<Statement>> {
    open spec fn rendered(&self, unit: Seq<char>, level: nat) -> Seq<char> {
        statements_text(statements_view(self@), unit, level)
    }

    fn fmt(&self, fmt: &mut Formatter) -> (text: String) {
        format_statements(self, fmt)
    }
}

impl Format for Comment {
    open spec fn rendered(&self, unit: Seq<char>, level: nat) -> Seq<char> {
        comment_text(*self)
    }

    fn fmt(&self, fmt: &mut Formatter) -> (text: String) {
        format_comment(self)
    }
}

impl Format for Declaration {
    open spec fn rendered(&self, unit: Seq<char>, level: nat) -> Seq<char> {
        declaration_text(*self)
    }

    fn fmt(&self, fmt: &mut Formatter) -> (text: String) {
        format_declaration(self)
    }
}

impl Format for Assignment {
    open spec fn rendered(&self, unit: Seq<char>, level: nat) -> Seq<char> {
        assignment_text(*self)
    }

    fn fmt(&self, fmt: &mut Formatter) -> (text: String) {
        format_assignment(self)
    }
}

impl Format for Block {
    open spec fn rendered(&self, unit: Seq<char>, level: nat) -> Seq<char> {
        block_text(self@, unit, level)
    }

    fn fmt(&self, fmt: &mut Formatter) -> (text: String) {
        format_block(self, fmt)
    }
}

} // verus!
