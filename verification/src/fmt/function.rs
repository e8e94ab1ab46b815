//! The text of function declarations and returns.
use vstd::prelude::*;
use vstd::string::StringExecFns;

use crate::ast::{FunctionDeclaration, Return};
use crate::ast::view::{function_type_view, lemma_function_type, statements_view};
use crate::fmt::{Format, Formatter};
use crate::fmt::render::{block_text, parameters_text, return_type_text};
use crate::fmt::statement::{format_block, format_return, return_text};
use crate::fmt::types::{format_parameters, format_return_type};

verus! {

/// The text of the head of a function declaration: `fn`, the name, the parameters in
/// parentheses, and the type that is returned, after a colon, if it is given.
pub open spec fn function_head_text(function: FunctionDeclaration) -> Seq<char> {
    "fn "@ + function.name@ + "("@ + parameters_text(function_type_view(function.typ).parameters)
        + ")"@ + return_type_text(function_type_view(function.typ).return_type)
}

/// Renders the head of a function declaration.
pub fn format_function_head(function: &FunctionDeclaration) -> (text: String)
    ensures
        text@ == function_head_text(*function),
{
    proof {
        lemma_function_type(function.typ);
    }
    let mut buffer = String::from_str("fn ");
    buffer.append(function.name.as_str());
    buffer.append("(");
    buffer.append(format_parameters(&function.typ.parameters).as_str());
    buffer.append(")");
    buffer.append(format_return_type(&function.typ.return_type).as_str());
    return buffer;
}

impl Format for FunctionDeclaration {
    open spec fn rendered(&self, unit: Seq<char>, level: nat) -> Seq<char> {
        function_head_text(*self) + " "@ + block_text(
            statements_view(self.body.statements@),
            unit,
            level,
        )
    }

    fn fmt(&self, fmt: &mut Formatter) -> (text: String) {
        let mut buffer = format_function_head(self);
        buffer.append(" ");
        buffer.append(format_block(&self.body, fmt).as_str());
        return buffer;
    }
}

impl Format for Return {
    open spec fn rendered(&self, unit: Seq<char>, level: nat) -> Seq<char> {
        return_text(*self)
    }

    fn fmt(&self, fmt: &mut Formatter) -> (text: String) {
        format_return(self)
    }
}

} // verus!
