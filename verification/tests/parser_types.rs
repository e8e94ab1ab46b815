use x_compiler::ast;
use x_compiler::ast::Type;
use x_compiler::parser::Parser;
use x_compiler::token::Span;

fn assert_type_equal(cases: &[(&str, ast::Type)]) {
    for case in cases {
        let mut parser = Parser::new(case.0);
        let got = parser.parse_type().unwrap();

        assert_eq!(case.1, got);
    }
}


#[test]
fn parse_tuple_type() {
    let cases = &[
        (
            "(string, bool)",
            Type::Tuple(ast::TupleType {
                elements: vec![Type::String, Type::Boolean],
            }),
        ),
        (
            "{ foo: string, bar: bool = false }",
            Type::Struct(ast::StructType {
                fields: vec![
                    ast::Field {
                        name: "foo".into(),
                        typ: Type::String,
                        default: None,
                    },
                    ast::Field {
                        name: "bar".into(),
                        typ: Type::Boolean,
                        default: Some(Box::new(ast::Expression {
                            typ: Type::Boolean,
                            kind: ast::ExpressionKind::Boolean(false),
                            position: Span::from((27, 1, 0), (31, 1, 0)),
                        })),
                    },
                ],
            }),
        ),
        (
            "fn (foo: string)",
            Type::Function(ast::FunctionType {
                parameters: vec![ast::Parameter {
                    name: "foo".into(),
                    typ: Type::String,
                }],
                return_type: None,
            }),
        ),
        (
            "fn (bar: int): (string, bool)",
            Type::Function(ast::FunctionType {
                parameters: vec![ast::Parameter {
                    name: "bar".into(),
                    typ: Type::Integer,
                }],
                return_type: Some(Box::new(Type::Tuple(ast::TupleType {
                    elements: vec![Type::String, Type::Boolean],
                }))),
            }),
        ),
    ];

    assert_type_equal(cases);
}
