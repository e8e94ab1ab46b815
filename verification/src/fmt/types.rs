//! The text of types.
use vstd::prelude::*;
use vstd::string::StringExecFns;

use crate::ast::{Field, FunctionType, Parameter, StructType, TupleType, Type, TypeView};
use crate::ast::view::{
    lemma_compound_types, lemma_function_type, lemma_plain_types, parameters_view,
};
use crate::fmt::{join_strings, texts, Format, Formatter};
use crate::fmt::expression::format_expression;
use crate::fmt::render::{
    field_text, field_texts, function_type_text, parameter_text, parameter_texts, parameters_text,
    return_type_text, type_text, type_texts,
};

verus! {

/// Renders a type.
pub fn format_type(typ: &Type) -> (text: String)
    ensures
        text@ == type_text(typ@),
    decreases typ,
{
    proof {
        lemma_plain_types();
        lemma_compound_types(*typ);
    }
    match typ {
        Type::Unknown => String::from_str("UNKNOWN"),
        Type::Name(name) => name.clone(),
        Type::Boolean => String::from_str("bool"),
        Type::Integer => String::from_str("int"),
        Type::Float => String::from_str("float"),
        Type::String => String::from_str("string"),
        Type::Tuple(t) => format_tuple_type(t),
        Type::Struct(s) => format_struct_type(s),
        Type::Function(f) => format_function_type(f),
    }
}

/// Renders a tuple type: its element types in parentheses, with `, ` between each two.
pub fn format_tuple_type(tuple: &TupleType) -> (text: String)
    ensures
        text@ == type_text(TypeView::Tuple(tuple@)),
    decreases tuple,
{
    let mut strings: Vec<String> = Vec::new();
    let mut i: usize = 0;
    while i < tuple.elements.len()
        invariant
            i <= tuple.elements.len(),
            strings.len() == i,
            forall|j: int|
                0 <= j < i ==> (#[trigger] strings[j])@ == type_text(tuple.elements[j]@),
        decreases tuple.elements.len() - i,
    {
        strings.push(format_type(&tuple.elements[i]));
        i += 1;
    }
    let mut text = String::from_str("(");
    text.append(join_strings(&strings, ", ").as_str());
    text.append(")");
    proof {
        assert(texts(strings@) =~= type_texts(tuple@));
    }
    text
}

/// Renders a struct type: its fields in braces, with `, ` between each two.
pub fn format_struct_type(structure: &StructType) -> (text: String)
    ensures
        text@ == type_text(TypeView::Struct(structure@)),
    decreases structure,
{
    let mut strings: Vec<String> = Vec::new();
    let mut i: usize = 0;
    while i < structure.fields.len()
        invariant
            i <= structure.fields.len(),
            strings.len() == i,
            forall|j: int|
                0 <= j < i ==> (#[trigger] strings[j])@ == field_text(structure.fields[j]@),
        decreases structure.fields.len() - i,
    {
        strings.push(format_field(&structure.fields[i]));
        i += 1;
    }
    let mut text = String::from_str("{ ");
    text.append(join_strings(&strings, ", ").as_str());
    text.append(" }");
    proof {
        assert(texts(strings@) =~= field_texts(structure@));
    }
    text
}

/// Renders a field: its name, a colon, its type, and its default after ` = ` if it has one.
pub fn format_field(field: &Field) -> (text: String)
    ensures
        text@ == field_text(field@),
    decreases field,
{
    let mut text = field.name.clone();
    text.append(": ");
    text.append(format_type(&field.typ).as_str());
    let mut tail = String::new();
    if let Some(default) = &field.default {
        let value = format_expression(&**default);
        tail.append(" = ");
        tail.append(value.as_str());
        proof {
            assert(tail@ =~= " = "@ + value@);
        }
    }
    text.append(tail.as_str());
    text
}

/// Renders a list of parameters, with `, ` between each two.
pub fn format_parameters(parameters: &Vec<Parameter>) -> (text: String)
    ensures
        text@ == parameters_text(parameters_view(parameters@)),
    decreases parameters,
{
    let mut strings: Vec<String> = Vec::new();
    let mut i: usize = 0;
    while i < parameters.len()
        invariant
            i <= parameters.len(),
            strings.len() == i,
            forall|j: int|
                0 <= j < i ==> (#[trigger] strings[j])@ == parameter_text(parameters[j]@),
        decreases parameters.len() - i,
    {
        strings.push(format_parameter(&parameters[i]));
        i += 1;
    }
    proof {
        assert(texts(strings@) =~= parameter_texts(parameters_view(parameters@)));
    }
    join_strings(&strings, ", ")
}

/// Renders the type that a function returns, after a colon, if it is given.
pub fn format_return_type(return_type: &Option<Box<Type>>) -> (text: String)
    ensures
        text@ == return_type_text(
            match *return_type {
                Some(typ) => Some(Box::new(typ@)),
                None => None,
            },
        ),
    decreases return_type,
{
    let mut text = String::new();
    if let Some(typ) = return_type {
        let name = format_type(&**typ);
        text.append(": ");
        text.append(name.as_str());
        proof {
            assert(text@ =~= ": "@ + name@);
        }
    }
    text
}

/// Renders a function type: `fn`, the parameters in parentheses, and the type that is
/// returned, after a colon, if it is given.
pub fn format_function_type(function: &FunctionType) -> (text: String)
    ensures
        text@ == function_type_text(function@),
    decreases function,
{
    proof {
        lemma_function_type(*function);
    }
    let mut text = String::from_str("fn (");
    text.append(format_parameters(&function.parameters).as_str());
    text.append(")");
    text.append(format_return_type(&function.return_type).as_str());
    text
}

/// Renders a parameter: its name, a colon and its type.
pub fn format_parameter(parameter: &Parameter) -> (text: String)
    ensures
        text@ == parameter_text(parameter@),
    decreases parameter,
{
    let mut text = parameter.name.clone();
    text.append(": ");
    text.append(format_type(&parameter.typ).as_str());
    text
}

impl Format for Type {
    open spec fn rendered(&self, unit: Seq<char>, level: nat) -> Seq<char> {
        type_text(self@)
    }

    fn fmt(&self, fmt: &mut Formatter) -> (text: String) {
        format_type(self)
    }
}

impl Format for TupleType {
    open spec fn rendered(&self, unit: Seq<char>, level: nat) -> Seq<char> {
        type_text(TypeView::Tuple(self@))
    }

    fn fmt(&self, fmt: &mut Formatter) -> (text: String) {
        format_tuple_type(self)
    }
}

impl Format for StructType {
    open spec fn rendered(&self, unit: Seq<char>, level: nat) -> Seq<char> {
        type_text(TypeView::Struct(self@))
    }

    fn fmt(&self, fmt: &mut Formatter) -> (text: String) {
        format_struct_type(self)
    }
}

impl Format for Field {
    open spec fn rendered(&self, unit: Seq<char>, level: nat) -> Seq<char> {
        field_text(self@)
    }

    fn fmt(&self, fmt: &mut Formatter) -> (text: String) {
        format_field(self)
    }
}

impl Format for FunctionType {
    open spec fn rendered(&self, unit: Seq<char>, level: nat) -> Seq<char> {
        function_type_text(self@)
    }

    fn fmt(&self, fmt: &mut Formatter) -> (text: String) {
        format_function_type(self)
    }
}

impl Format for Parameter {
    open spec fn rendered(&self, unit: Seq<char>, level: nat) -> Seq<char> {
        parameter_text(self@)
    }

    fn fmt(&self, fmt: &mut Formatter) -> (text: String) {
        format_parameter(self)
    }
}

} // verus!
