//! Types.
use vstd::prelude::*;

use crate::ast::{
    Field, FieldView, FunctionType, FunctionTypeView, Parameter, ParameterView, StructType,
    TupleType, Type, TypeView,
};
use crate::ast::view::{
    fields_view, lemma_compound_types, lemma_function_type, lemma_plain_types, lemma_views_push,
    parameters_view, types_view,
};
use crate::parser::Parser;
use crate::parser::error::{Error, ErrorView};
use crate::parser::precedence::Precedence;
use crate::token::{Token, TokenView};
use crate::token::text::same_text;

verus! {

impl Parser {
    /// Parses a type: a name, a tuple type, a struct type or a function type.
    #[verifier::rlimit(60)]
    pub fn parse_type(&mut self) -> (r: Result<Type, Error>)
        requires
            old(self).wf(),
        ensures
            final(self).wf(),
            final(self).source() == old(self).source(),
            match r {
                Ok(typ) => {
                    &&& old(self).stream().typ(old(self).at()) == Ok::<(TypeView, int), ErrorView>(
                        (typ@, final(self).at()),
                    )
                    &&& old(self).stream().left(final(self).at()) < old(self).stream().left(
                        old(self).at(),
                    )
                },
                Err(error) => old(self).stream().typ(old(self).at()) == Err::<
                    (TypeView, int),
                    ErrorView,
                >(error@),
            },
        decreases old(self).stream().left(old(self).at()), 2nat,
    {
        proof {
            self.lemma_wf();
        }
        let typ = match &self.current().token {
            Token::Identifier(_) => match self.parse_identifier_type() {
                Ok(typ) => typ,
                Err(error) => {
                    return Err(error);
                },
            },
            Token::LeftParenthesis => match self.parse_tuple_type() {
                Ok(tuple) => Type::Tuple(tuple),
                Err(error) => {
                    return Err(error);
                },
            },
            Token::LeftBrace => match self.parse_struct_type() {
                Ok(structure) => Type::Struct(structure),
                Err(error) => {
                    return Err(error);
                },
            },
            Token::Function => match self.parse_function_type() {
                Ok(function) => Type::Function(function),
                Err(error) => {
                    return Err(error);
                },
            },
            _ => {
                return Err(self.unexpected("typ"));
            },
        };
        proof {
            lemma_compound_types(typ);
        }
        return Ok(typ);
    }

    /// Parses the name of a type, the current token being an identifier: `bool`, `int`, `float`
    /// and `string` name the built-in types.
    #[verifier::rlimit(60)]
    fn parse_identifier_type(&mut self) -> (r: Result<Type, Error>)
        requires
            old(self).wf(),
            old(self).stream().at(old(self).at()).token is Identifier,
        ensures
            final(self).wf(),
            final(self).source() == old(self).source(),
            match r {
                Ok(typ) => {
                    &&& old(self).stream().typ(old(self).at()) == Ok::<(TypeView, int), ErrorView>(
                        (typ@, final(self).at()),
                    )
                    &&& old(self).stream().left(final(self).at()) < old(self).stream().left(
                        old(self).at(),
                    )
                },
                Err(error) => old(self).stream().typ(old(self).at()) == Err::<
                    (TypeView, int),
                    ErrorView,
                >(error@),
            },
    {
        proof {
            self.lemma_wf();
            lemma_plain_types();
        }
        let identifier = match self.get_identifier_name() {
            Ok(name) => name,
            Err(error) => {
                return Err(error);
            },
        };
        let typ = if same_text(identifier.as_str(), "bool") {
            Type::Boolean
        } else if same_text(identifier.as_str(), "int") {
            Type::Integer
        } else if same_text(identifier.as_str(), "float") {
            Type::Float
        } else if same_text(identifier.as_str(), "string") {
            Type::String
        } else {
            Type::Name(identifier)
        };
        match self.next() {
            Ok(()) => {},
            Err(error) => {
                return Err(error);
            },
        }
        return Ok(typ);
    }

    /// Parses a tuple type, the current token being its opening parenthesis.
    #[verifier::rlimit(60)]
    fn parse_tuple_type(&mut self) -> (r: Result<TupleType, Error>)
        requires
            old(self).wf(),
            old(self).stream().at(old(self).at()).token == TokenView::LeftParenthesis,
        ensures
            final(self).wf(),
            final(self).source() == old(self).source(),
            match r {
                Ok(tuple) => {
                    &&& old(self).stream().tuple_type(old(self).at()) == Ok::<
                        (Seq<TypeView>, int),
                        ErrorView,
                    >((tuple@, final(self).at()))
                    &&& old(self).stream().left(final(self).at()) < old(self).stream().left(
                        old(self).at(),
                    )
                },
                Err(error) => old(self).stream().tuple_type(old(self).at()) == Err::<
                    (Seq<TypeView>, int),
                    ErrorView,
                >(error@),
            },
        decreases old(self).stream().left(old(self).at()), 1nat,
    {
        proof {
            self.lemma_wf();
            lemma_views_push();
        }
        let ghost s = self.stream();
        let ghost k = self.at();
        match self.consume(Token::LeftParenthesis) {
            Ok(()) => {},
            Err(error) => {
                return Err(error);
            },
        }
        let mut elements: Vec<Type> = Vec::new();
        while !matches!(self.current().token, Token::RightParenthesis)
            invariant_except_break
                s.elements(k + 1, Seq::empty()) == s.elements(self.at(), types_view(elements@)),
            invariant
                self.wf(),
                self.source() == old(self).source(),
                s == old(self).stream(),
                k == old(self).at(),
                s.left(self.at()) < s.left(k),
                s.consume(k, TokenView::LeftParenthesis) == Ok::<int, ErrorView>(k + 1),
            ensures
                s.elements(k + 1, Seq::empty()) == Ok::<(Seq<TypeView>, int), ErrorView>(
                    (types_view(elements@), self.at()),
                ),
            decreases s.left(self.at()),
        {
            proof {
                lemma_views_push();
            }
            let element = match self.parse_type() {
                Ok(typ) => typ,
                Err(error) => {
                    return Err(error);
                },
            };
            elements.push(element);
            if matches!(self.current().token, Token::RightParenthesis) {
                break ;
            } else {
                match self.consume_expression_separator() {
                    Ok(()) => {},
                    Err(error) => {
                        return Err(error);
                    },
                }
            }
        }
        match self.consume(Token::RightParenthesis) {
            Ok(()) => {},
            Err(error) => {
                return Err(error);
            },
        }
        return Ok(TupleType { elements });
    }

    /// Parses a struct type, the current token being its opening brace.
    #[verifier::rlimit(60)]
    fn parse_struct_type(&mut self) -> (r: Result<StructType, Error>)
        requires
            old(self).wf(),
            old(self).stream().at(old(self).at()).token == TokenView::LeftBrace,
        ensures
            final(self).wf(),
            final(self).source() == old(self).source(),
            match r {
                Ok(structure) => {
                    &&& old(self).stream().struct_type(old(self).at()) == Ok::<
                        (Seq<FieldView>, int),
                        ErrorView,
                    >((structure@, final(self).at()))
                    &&& old(self).stream().left(final(self).at()) < old(self).stream().left(
                        old(self).at(),
                    )
                },
                Err(error) => old(self).stream().struct_type(old(self).at()) == Err::<
                    (Seq<FieldView>, int),
                    ErrorView,
                >(error@),
            },
        decreases old(self).stream().left(old(self).at()), 1nat,
    {
        proof {
            self.lemma_wf();
            lemma_views_push();
        }
        let ghost s = self.stream();
        let ghost k = self.at();
        match self.consume(Token::LeftBrace) {
            Ok(()) => {},
            Err(error) => {
                return Err(error);
            },
        }
        let mut fields: Vec<Field> = Vec::new();
        while !matches!(self.current().token, Token::RightBrace)
            invariant_except_break
                s.fields(k + 1, Seq::empty()) == s.fields(self.at(), fields_view(fields@)),
            invariant
                self.wf(),
                self.source() == old(self).source(),
                s == old(self).stream(),
                k == old(self).at(),
                s.left(self.at()) < s.left(k),
                s.consume(k, TokenView::LeftBrace) == Ok::<int, ErrorView>(k + 1),
            ensures
                s.fields(k + 1, Seq::empty()) == Ok::<(Seq<FieldView>, int), ErrorView>(
                    (fields_view(fields@), self.at()),
                ),
            decreases s.left(self.at()),
        {
            proof {
                lemma_views_push();
            }
            let field = match self.parse_field() {
                Ok(field) => field,
                Err(error) => {
                    return Err(error);
                },
            };
            fields.push(field);
            if matches!(self.current().token, Token::RightBrace) {
                break ;
            } else {
                match self.consume_expression_separator() {
                    Ok(()) => {},
                    Err(error) => {
                        return Err(error);
                    },
                }
            }
        }
        match self.consume(Token::RightBrace) {
            Ok(()) => {},
            Err(error) => {
                return Err(error);
            },
        }
        return Ok(StructType { fields });
    }

    /// Parses a field: a name, a colon, a type, and if `=` follows, the expression after it as
    /// the default.
    #[verifier::rlimit(60)]
    fn parse_field(&mut self) -> (r: Result<Field, Error>)
        requires
            old(self).wf(),
        ensures
            final(self).wf(),
            final(self).source() == old(self).source(),
            match r {
                Ok(field) => {
                    &&& old(self).stream().field(old(self).at()) == Ok::<
                        (FieldView, int),
                        ErrorView,
                    >((field@, final(self).at()))
                    &&& old(self).stream().left(final(self).at()) < old(self).stream().left(
                        old(self).at(),
                    )
                },
                Err(error) => old(self).stream().field(old(self).at()) == Err::<
                    (FieldView, int),
                    ErrorView,
                >(error@),
            },
        decreases old(self).stream().left(old(self).at()), 3nat,
    {
        proof {
            self.lemma_wf();
        }
        let name = match self.get_identifier_name() {
            Ok(name) => name,
            Err(error) => {
                return Err(error);
            },
        };
        match self.next() {
            Ok(()) => {},
            Err(error) => {
                return Err(error);
            },
        }
        match self.consume(Token::Colon) {
            Ok(()) => {},
            Err(error) => {
                return Err(error);
            },
        }
        let typ = match self.parse_type() {
            Ok(typ) => typ,
            Err(error) => {
                return Err(error);
            },
        };
        let mut default = None;
        if matches!(self.current().token, Token::Assign) {
            match self.next() {
                Ok(()) => {},
                Err(error) => {
                    return Err(error);
                },
            }
            let value = match self.parse_expression(Precedence::Lowest) {
                Ok(value) => value,
                Err(error) => {
                    return Err(error);
                },
            };
            default = Some(Box::new(value));
        }
        return Ok(Field { name, typ, default });
    }

    /// Parses a function type, the current token being its `fn`.
    #[verifier::rlimit(60)]
    fn parse_function_type(&mut self) -> (r: Result<FunctionType, Error>)
        requires
            old(self).wf(),
            old(self).stream().at(old(self).at()).token == TokenView::Function,
        ensures
            final(self).wf(),
            final(self).source() == old(self).source(),
            match r {
                Ok(function) => {
                    &&& old(self).stream().function_type(old(self).at()) == Ok::<
                        (FunctionTypeView, int),
                        ErrorView,
                    >((function@, final(self).at()))
                    &&& old(self).stream().left(final(self).at()) < old(self).stream().left(
                        old(self).at(),
                    )
                },
                Err(error) => old(self).stream().function_type(old(self).at()) == Err::<
                    (FunctionTypeView, int),
                    ErrorView,
                >(error@),
            },
        decreases old(self).stream().left(old(self).at()), 1nat,
    {
        proof {
            self.lemma_wf();
        }
        match self.consume(Token::Function) {
            Ok(()) => {},
            Err(error) => {
                return Err(error);
            },
        }
        return self.parse_signature();
    }

    /// Parses what follows the name in a function's head: the parameters in parentheses and, if
    /// a colon follows, the type that the function returns.
    #[verifier::rlimit(60)]
    pub fn parse_signature(&mut self) -> (r: Result<FunctionType, Error>)
        requires
            old(self).wf(),
        ensures
            final(self).wf(),
            final(self).source() == old(self).source(),
            match r {
                Ok(function) => {
                    &&& old(self).stream().signature(old(self).at()) == Ok::<
                        (FunctionTypeView, int),
                        ErrorView,
                    >((function@, final(self).at()))
                    &&& old(self).stream().left(final(self).at()) < old(self).stream().left(
                        old(self).at(),
                    )
                },
                Err(error) => old(self).stream().signature(old(self).at()) == Err::<
                    (FunctionTypeView, int),
                    ErrorView,
                >(error@),
            },
        decreases old(self).stream().left(old(self).at()), 5nat,
    {
        proof {
            self.lemma_wf();
            lemma_views_push();
        }
        let ghost s = self.stream();
        let ghost k = self.at();
        match self.consume(Token::LeftParenthesis) {
            Ok(()) => {},
            Err(error) => {
                return Err(error);
            },
        }
        let mut parameters: Vec<Parameter> = Vec::new();
        while !matches!(self.current().token, Token::RightParenthesis)
            invariant_except_break
                s.parameters(k + 1, Seq::empty()) == s.parameters(
                    self.at(),
                    parameters_view(parameters@),
                ),
            invariant
                self.wf(),
                self.source() == old(self).source(),
                s == old(self).stream(),
                k == old(self).at(),
                s.left(self.at()) < s.left(k),
                s.consume(k, TokenView::LeftParenthesis) == Ok::<int, ErrorView>(k + 1),
            ensures
                s.parameters(k + 1, Seq::empty()) == Ok::<(Seq<ParameterView>, int), ErrorView>(
                    (parameters_view(parameters@), self.at()),
                ),
            decreases s.left(self.at()),
        {
            proof {
                lemma_views_push();
            }
            let parameter = match self.parse_parameter() {
                Ok(parameter) => parameter,
                Err(error) => {
                    return Err(error);
                },
            };
            parameters.push(parameter);
            if matches!(self.current().token, Token::RightParenthesis) {
                break ;
            } else {
                match self.consume_expression_separator() {
                    Ok(()) => {},
                    Err(error) => {
                        return Err(error);
                    },
                }
            }
        }
        match self.consume(Token::RightParenthesis) {
            Ok(()) => {},
            Err(error) => {
                return Err(error);
            },
        }
        let mut return_type = None;
        if matches!(self.current().token, Token::Colon) {
            match self.next() {
                Ok(()) => {},
                Err(error) => {
                    return Err(error);
                },
            }
            let typ = match self.parse_type() {
                Ok(typ) => typ,
                Err(error) => {
                    return Err(error);
                },
            };
            return_type = Some(Box::new(typ));
        }
        let function = FunctionType { parameters, return_type };
        proof {
            lemma_function_type(function);
        }
        return Ok(function);
    }

    /// Parses a parameter: a name, a colon and a type.
    #[verifier::rlimit(60)]
    pub fn parse_parameter(&mut self) -> (r: Result<Parameter, Error>)
        requires
            old(self).wf(),
        ensures
            final(self).wf(),
            final(self).source() == old(self).source(),
            match r {
                Ok(parameter) => {
                    &&& old(self).stream().parameter(old(self).at()) == Ok::<
                        (ParameterView, int),
                        ErrorView,
                    >((parameter@, final(self).at()))
                    &&& old(self).stream().left(final(self).at()) < old(self).stream().left(
                        old(self).at(),
                    )
                },
                Err(error) => old(self).stream().parameter(old(self).at()) == Err::<
                    (ParameterView, int),
                    ErrorView,
                >(error@),
            },
        decreases old(self).stream().left(old(self).at()), 3nat,
    {
        proof {
            self.lemma_wf();
        }
        let name = match self.get_identifier_name() {
            Ok(name) => name,
            Err(error) => {
                return Err(error);
            },
        };
        match self.next() {
            Ok(()) => {},
            Err(error) => {
                return Err(error);
            },
        }
        match self.consume(Token::Colon) {
            Ok(()) => {},
            Err(error) => {
                return Err(error);
            },
        }
        let typ = match self.parse_type() {
            Ok(typ) => typ,
            Err(error) => {
                return Err(error);
            },
        };
        return Ok(Parameter { name, typ });
    }
}

} // verus!
