//! Types as they are written in a source.
use vstd::prelude::*;

use crate::ast::expression::Expression;
use crate::ast::view::{
    field_view, fields_view, function_type_view, parameter_view, type_view, types_view, FieldView,
    FunctionTypeView, ParameterView, TypeView,
};

verus! {

#[derive(Debug, PartialEq)]
pub enum Type {
    Unknown,
    Name(String),
    Boolean,
    Integer,
    Float,
    String,
    Tuple(TupleType),
    Struct(StructType),
    Function(FunctionType),
}

#[derive(Debug, PartialEq)]
pub struct TupleType {
    pub elements: Vec<Type>,
}

#[derive(Debug, PartialEq)]
pub struct StructType {
    pub fields: Vec<Field>,
}

#[derive(Debug, PartialEq)]
pub struct Field {
    pub name: String,
    pub typ: Type,
    pub default: Option<Box<Expression>>,
}

#[derive(Debug, PartialEq)]
pub struct FunctionType {
    pub parameters: Vec<Parameter>,
    pub return_type: Option<Box<Type>>,
}

#[derive(Debug, PartialEq)]
pub struct Parameter {
    pub name: String,
    pub typ: Type,
}

impl View for Type {
    type V = TypeView;

    open spec fn view(&self) -> TypeView {
        type_view(*self)
    }
}

impl View for TupleType {
    type V = Seq<TypeView>;

    open spec fn view(&self) -> Seq<TypeView> {
        types_view(self.elements@)
    }
}

impl View for StructType {
    type V = Seq<FieldView>;

    open spec fn view(&self) -> Seq<FieldView> {
        fields_view(self.fields@)
    }
}

impl View for Field {
    type V = FieldView;

    open spec fn view(&self) -> FieldView {
        field_view(*self)
    }
}

impl View for FunctionType {
    type V = FunctionTypeView;

    open spec fn view(&self) -> FunctionTypeView {
        function_type_view(*self)
    }
}

impl View for Parameter {
    type V = ParameterView;

    open spec fn view(&self) -> ParameterView {
        parameter_view(*self)
    }
}

} // verus!
