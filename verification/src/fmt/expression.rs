//! The text of expressions.
use vstd::prelude::*;
use vstd::string::StringExecFns;

use crate::ast::{Expression, ExpressionKind, InfixExpression, PrefixExpression};
use crate::ast::view::expression_view;
use crate::fmt::{Format, Formatter};
use crate::fmt::render::expression_text;

verus! {

/// Renders an expression.
pub fn format_expression(expression: &Expression) -> (text: String)
    ensures
        text@ == expression_text(expression@),
    decreases expression,
{
    match &expression.kind {
        ExpressionKind::Identifier(i) => i.clone(),
        ExpressionKind::Boolean(b) => if *b {
            String::from_str("true")
        } else {
            String::from_str("false")
        },
        ExpressionKind::Integer(i) => i.clone(),
        ExpressionKind::Float(f) => f.clone(),
        ExpressionKind::String(s) => {
            let mut text = String::from_str("\"");
            text.append(s.as_str());
            text.append("\"");
            text
        },
        ExpressionKind::Prefix(p) => format_prefix(p),
        ExpressionKind::Infix(i) => format_infix(i),
    }
}

/// The text of an operator and the operand it stands before.
pub open spec fn prefix_text(prefix: PrefixExpression) -> Seq<char> {
    prefix.operator@.literal() + expression_text(expression_view(*prefix.right))
}

/// The text of two operands and the operator between them.
pub open spec fn infix_text(infix: InfixExpression) -> Seq<char> {
    expression_text(expression_view(*infix.left)) + " "@ + infix.operator@.literal() + " "@
        + expression_text(expression_view(*infix.right))
}

/// Renders an operator and the operand it stands before, with nothing between them.
pub fn format_prefix(prefix: &PrefixExpression) -> (text: String)
    ensures
        text@ == prefix_text(*prefix),
    decreases prefix,
{
    let mut text = prefix.operator.to_string();
    let right = format_expression(&*prefix.right);
    text.append(right.as_str());
    text
}

/// Renders two operands and the operator between them, with a space on each side of it.
pub fn format_infix(infix: &InfixExpression) -> (text: String)
    ensures
        text@ == infix_text(*infix),
    decreases infix,
{
    let mut text = format_expression(&*infix.left);
    text.append(" ");
    text.append(infix.operator.to_string().as_str());
    text.append(" ");
    text.append(format_expression(&*infix.right).as_str());
    text
}

impl Format for Expression {
    open spec fn rendered(&self, unit: Seq<char>, level: nat) -> Seq<char> {
        expression_text(self@)
    }

    fn fmt(&self, fmt: &mut Formatter) -> (text: String) {
        format_expression(self)
    }
}

impl Format for PrefixExpression {
    open spec fn rendered(&self, unit: Seq<char>, level: nat) -> Seq<char> {
        prefix_text(*self)
    }

    fn fmt(&self, fmt: &mut Formatter) -> (text: String) {
        format_prefix(self)
    }
}

impl Format for InfixExpression {
    open spec fn rendered(&self, unit: Seq<char>, level: nat) -> Seq<char> {
        infix_text(*self)
    }

    fn fmt(&self, fmt: &mut Formatter) -> (text: String) {
        format_infix(self)
    }
}

} // verus!
