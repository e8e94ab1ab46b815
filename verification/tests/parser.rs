use x_compiler::ast::{
    Expression, ExpressionKind, File, InfixExpression, Statement, StatementKind, Type,
};
use x_compiler::lexer;
use x_compiler::parser::{Error, Parser, Precedence};
use x_compiler::token::{Position, Span, Token};
use x_compiler::{parse, tokenize};

fn integer(digits: &str, start: usize, end: usize) -> Expression {
    Expression {
        kind: ExpressionKind::Integer(digits.into()),
        typ: Type::Integer,
        position: Span::from((start, 1, 0), (end, 1, 0)),
    }
}

fn infix(left: Expression, operator: Token, right: Expression) -> Expression {
    let position = Span { start: left.position.start, end: right.position.end };
    Expression {
        kind: ExpressionKind::Infix(InfixExpression {
            left: Box::new(left),
            operator,
            right: Box::new(right),
        }),
        typ: Type::Unknown,
        position,
    }
}

fn unexpected(source: &str) -> (String, String, Span) {
    match parse(source) {
        Err(Error::UnexpectedToken { want, got, position }) => (want, got, position),
        other => panic!("{:?} on {:?}", other, source),
    }
}

#[test]
fn parse_equal_precedence_folds_left() {
    let got = Parser::new("5 < 10 > 6").parse_expression(Precedence::Lowest).unwrap();
    let want = infix(
        infix(integer("5", 0, 0), Token::LessThan, integer("10", 4, 5)),
        Token::GreaterThan,
        integer("6", 9, 9),
    );
    assert_eq!(got, want);
}

#[test]
fn parse_stronger_operator_binds_first() {
    let got = Parser::new("1 + 2 * 3 == 7").parse_expression(Precedence::Lowest).unwrap();
    let want = infix(
        infix(
            integer("1", 0, 0),
            Token::Plus,
            infix(integer("2", 4, 4), Token::Asterisk, integer("3", 8, 8)),
        ),
        Token::Equal,
        integer("7", 13, 13),
    );
    assert_eq!(got, want);
    let got = Parser::new("8 / 4 % 3 - 1").parse_expression(Precedence::Lowest).unwrap();
    let want = infix(
        infix(
            infix(integer("8", 0, 0), Token::Slash, integer("4", 4, 4)),
            Token::Percent,
            integer("3", 8, 8),
        ),
        Token::Minus,
        integer("1", 12, 12),
    );
    assert_eq!(got, want);
}

#[test]
fn parse_minimum_precedence_stops_the_climb() {
    let mut parser = Parser::new("1 * 2 + 3");
    let got = parser.parse_expression(Precedence::Sum).unwrap();
    assert_eq!(got, infix(integer("1", 0, 0), Token::Asterisk, integer("2", 4, 4)));
    assert_eq!(parser.current().token, Token::Plus);
    let mut parser = Parser::new("1 + 2");
    assert_eq!(parser.parse_expression(Precedence::Index).unwrap(), integer("1", 0, 0));
    assert_eq!(parser.current().token, Token::Plus);
}

#[test]
fn parse_group_spans_its_parentheses() {
    let got = Parser::new("(1 + 2)").parse_expression(Precedence::Lowest).unwrap();
    let mut want = infix(integer("1", 1, 1), Token::Plus, integer("2", 5, 5));
    want.position = Span::from((0, 1, 0), (6, 1, 0));
    assert_eq!(got, want);
}

#[test]
fn parse_expression_ends_at_what_is_no_operator() {
    let mut parser = Parser::new("a (b) [c]");
    let got = parser.parse_expression(Precedence::Lowest).unwrap();
    assert_eq!(got.kind, ExpressionKind::Identifier("a".into()));
    assert_eq!(parser.current().token, Token::LeftParenthesis);
    let (want, got, _) = unexpected("a (b)");
    assert_eq!((want.as_str(), got.as_str()), ("statement separator", "("));
}

#[test]
fn parse_expression_ends_at_a_new_line() {
    let file = parse("1\n+ 2").unwrap_err();
    match file {
        Error::UnexpectedToken { want, got, position } => {
            assert_eq!(want, "start of an expression");
            assert_eq!(got, "+");
            assert_eq!(position, Span::from((2, 2, 2), (2, 2, 2)));
        }
        other => panic!("{:?}", other),
    }
    let file = parse("1\n-2").unwrap();
    assert_eq!(file.statements.len(), 2);
}

#[test]
fn parse_declaration_or_assignment_by_the_next_token() {
    let declared = parse("a := 1").unwrap();
    assert!(matches!(declared.statements[0].kind, StatementKind::Declaration(_)));
    let assigned = parse("a = 2").unwrap();
    assert!(matches!(assigned.statements[0].kind, StatementKind::Assignment(_)));
    let compared = parse("a == 2").unwrap();
    assert!(matches!(compared.statements[0].kind, StatementKind::Expression(_)));
    match &parse("mut a := 1").unwrap().statements[0].kind {
        StatementKind::Declaration(declaration) => {
            assert!(declaration.mutable);
            assert_eq!(declaration.name, "a");
        }
        other => panic!("{:?}", other),
    }
}

#[test]
fn parse_unterminated_string_is_a_lexer_error() {
    let want = Err(Error::LexerError(lexer::Error::UnexpectedEOF {
        position: Position::from((4, 1, 0)),
    }));
    assert_eq!(parse("\"abc"), want);
    let later = Err(Error::LexerError(lexer::Error::UnexpectedEOF {
        position: Position::from((11, 1, 0)),
    }));
    assert_eq!(parse("a := 1 \"abc"), later);
    assert_eq!(parse("a \"abc"), Err(Error::LexerError(lexer::Error::UnexpectedEOF {
        position: Position::from((6, 1, 0)),
    })));
    assert_eq!(parse(") \"abc"), Err(Error::LexerError(lexer::Error::UnexpectedEOF {
        position: Position::from((6, 1, 0)),
    })));
    assert_eq!(parse("1; 2; /* a"), Err(Error::LexerError(lexer::Error::UnexpectedEOF {
        position: Position::from((10, 1, 0)),
    })));
}

#[test]
fn parse_lexer_error_through_every_entry() {
    let want = Error::LexerError(lexer::Error::UnexpectedEOF {
        position: Position::from((4, 1, 0)),
    });
    assert_eq!(Parser::new("\"abc").parse_expression(Precedence::Lowest), Err(want.clone()));
    assert_eq!(Parser::new("\"abc").parse_statement(), Err(want.clone()));
    assert_eq!(Parser::new("\"abc").parse_type(), Err(want.clone()));
    let mut parser = Parser::new("\"abc");
    assert_eq!(parser.failure(), Some(lexer::Error::UnexpectedEOF {
        position: Position::from((4, 1, 0)),
    }));
    assert_eq!(parser.next(), Err(want.clone()));
    assert_eq!(parser.parse(), Err(want));
    assert_eq!(Parser::new("1").failure(), None);
}

#[test]
fn parse_first_error_stops_the_parse() {
    let (want, got, position) = unexpected("a := 1 b := 2");
    assert_eq!(want, "statement separator");
    assert_eq!(got, "b");
    assert_eq!(position, Span::from((7, 1, 0), (7, 1, 0)));
    let (want, got, _) = unexpected("a := ");
    assert_eq!((want.as_str(), got.as_str()), ("start of an expression", "ILLEGAL"));
    let (want, got, _) = unexpected("mut 1 := 2");
    assert_eq!((want.as_str(), got.as_str()), ("identifier", "1"));
    let (want, got, _) = unexpected("mut a = 2");
    assert_eq!((want.as_str(), got.as_str()), (":=", "="));
    let (want, got, _) = unexpected("(1 + 2");
    assert_eq!((want.as_str(), got.as_str()), (")", "ILLEGAL"));
    let (want, got, _) = unexpected("{ 1\n");
    assert_eq!((want.as_str(), got.as_str()), ("start of an expression", "ILLEGAL"));
    let (want, got, _) = unexpected("fn f(a: ) { }");
    assert_eq!((want.as_str(), got.as_str()), ("typ", ")"));
    let (want, got, _) = unexpected("fn f(a: int b: int) { }");
    assert_eq!((want.as_str(), got.as_str()), ("expression separator", "b"));
    let (want, got, _) = unexpected("fn f() 1");
    assert_eq!((want.as_str(), got.as_str()), ("{", "1"));
    let (want, got, _) = unexpected("#");
    assert_eq!((want.as_str(), got.as_str()), ("start of an expression", "ILLEGAL"));
}

#[test]
fn parse_lists_take_commas_or_new_lines() {
    let with_commas = Parser::new("(int, bool,)").parse_type().unwrap();
    let with_lines = Parser::new("(int\nbool\n)").parse_type().unwrap();
    assert_eq!(with_commas, with_lines);
    let function = parse("fn f(a: int, b: bool,): T {\n}").unwrap();
    let lines = parse("fn f(a: int\nb: bool\n): T {\n}").unwrap();
    match (&function.statements[0].kind, &lines.statements[0].kind) {
        (StatementKind::FunctionDeclaration(f), StatementKind::FunctionDeclaration(g)) => {
            assert_eq!(f.typ, g.typ);
            assert_eq!(f.typ.parameters.len(), 2);
            assert_eq!(f.typ.return_type, Some(Box::new(Type::Name("T".into()))));
        }
        other => panic!("{:?}", other),
    }
    match Parser::new("(int bool)").parse_type() {
        Err(Error::UnexpectedToken { want, got, .. }) => {
            assert_eq!((want.as_str(), got.as_str()), ("expression separator", "bool"));
        }
        other => panic!("{:?}", other),
    }
}

#[test]
fn parse_twice_gives_equal_files() {
    let source = "fn f(a: int): bool {\n  // c\n  return a == 1\n}\n\nmut b := -f * (2 + 3)\n";
    let first = parse(source);
    let second = parse(source);
    assert!(first.is_ok());
    assert_eq!(first, second);
    let copy: File = first.as_ref().unwrap().clone();
    assert_eq!(Ok(copy), second);
    assert_eq!(parse("a := := 1"), parse("a := := 1"));
    assert!(parse("a := := 1").is_err());
}

#[test]
fn parse_statement_copies_are_equal() {
    let file = parse("{ a := 1; b = \"x\"\n fn g(p: (int, {q: T = 1})) {\n}\n}").unwrap();
    let statement: &Statement = &file.statements[0];
    assert_eq!(statement.clone(), *statement);
}

#[test]
fn parse_window_holds_three_tokens() {
    let mut parser = Parser::new("a + b");
    assert_eq!(parser.previous().token, Token::EOF);
    assert_eq!(parser.current().token, Token::Identifier("a".into()));
    assert_eq!(parser.upcoming().token, Token::Plus);
    assert!(!parser.is_statement_separator());
    assert!(!parser.is_expression_separator());
    assert_eq!(parser.expect(Token::Plus).is_err(), true);
    assert_eq!(parser.get_identifier_name(), Ok("a".to_string()));
    assert_eq!(parser.next(), Ok(()));
    assert_eq!(parser.consume(Token::Plus), Ok(()));
    assert_eq!(parser.previous().token, Token::Plus);
    assert_eq!(parser.current().token, Token::Identifier("b".into()));
    assert_eq!(parser.upcoming().token, Token::EOF);
    assert_eq!(parser.next(), Ok(()));
    assert!(parser.is_statement_separator());
    assert_eq!(parser.consume_statement_separator(), Ok(()));
    assert_eq!(parser.consume_expression_separator(), Ok(()));
    assert_eq!(parser.current().token, Token::EOF);
}

#[test]
fn precedence_order() {
    let order = [
        Precedence::Lowest,
        Precedence::Equal,
        Precedence::LessGreater,
        Precedence::Sum,
        Precedence::Product,
        Precedence::Prefix,
        Precedence::Call,
        Precedence::Index,
    ];
    for (i, low) in order.iter().enumerate() {
        assert_eq!(low.rank() as usize, i);
        for (j, high) in order.iter().enumerate() {
            assert_eq!(low.weaker_than(*high), i < j);
        }
    }
    assert_eq!(Precedence::of(&Token::NotEqual), Precedence::Equal);
    assert_eq!(Precedence::of(&Token::GreaterThan), Precedence::LessGreater);
    assert_eq!(Precedence::of(&Token::Minus), Precedence::Sum);
    assert_eq!(Precedence::of(&Token::Slash), Precedence::Product);
    assert_eq!(Precedence::of(&Token::Percent), Precedence::Product);
    assert_eq!(Precedence::of(&Token::LeftParenthesis), Precedence::Call);
    assert_eq!(Precedence::of(&Token::LeftBracket), Precedence::Index);
    assert_eq!(Precedence::of(&Token::Comma), Precedence::Lowest);
}

#[test]
fn error_texts() {
    let (want, got, position) = unexpected("a := 1 b");
    let error = Error::UnexpectedToken { want, got, position };
    assert_eq!(error.to_string(), "unexpected token: b @ 1:7 - 1:7 (expected: statement separator)");
    let lexed = parse("a\n  \"bc").unwrap_err();
    assert_eq!(lexed.to_string(), "lexer error: Unexpected EOF @ 2:5");
    assert_eq!(Error::UnexpectedEOF.to_string(), "unexpected EOF");
    assert_eq!(Position::from((1234567890, 10, 1234567000)).to_string(), "10:890");
    assert_eq!(Position::from((5, 0, 9)).to_string(), "0:0");
    assert_eq!(Span::from((0, 1, 0), (12, 3, 10)).to_string(), "1:0 - 3:2");
}

#[test]
fn tokenize_gives_every_token_with_its_span() {
    let tokens = tokenize("a := 1 // c\n").unwrap();
    let got: Vec<(Token, usize, usize)> = tokens
        .into_iter()
        .map(|info| (info.token, info.position.start.offset, info.position.end.offset))
        .collect();
    assert_eq!(
        got,
        vec![
            (Token::Identifier("a".into()), 0, 0),
            (Token::Declare, 2, 3),
            (Token::Integer("1".into()), 5, 5),
            (Token::LineComment(" c".into()), 7, 10),
        ]
    );
    assert_eq!(tokenize("").unwrap().len(), 0);
    assert_eq!(
        tokenize("a \"b").unwrap_err(),
        lexer::Error::UnexpectedEOF { position: Position::from((4, 1, 0)) }
    );
}

#[test]
fn format_entry_takes_the_indent_unit() {
    let file = parse("{ a := 1; }").unwrap();
    assert_eq!(x_compiler::format(&file, "    ", false), "{\n    a := 1\n}\n");
    assert_eq!(x_compiler::format(&file, "", true), "{\na := 1\n}\n");
    assert_eq!(x_compiler::format(&file, "  ", false), file.to_string());
}

fn reformat(source: &str) -> Option<String> {
    parse(source).ok().map(|file| file.to_string())
}

#[test]
fn format_of_a_comment_after_a_statement_does_not_parse_again() {
    let once = reformat("1 + 2; // note").unwrap();
    assert_eq!(once, "1 + 2 // note\n");
    assert_eq!(reformat(&once), None);
}

#[test]
fn format_is_stable_on_every_short_program() {
    // Every sequence of up to five of these pieces that parses, and in which no comment
    // follows a statement on its line, formats to a text that formats to itself.
    let pieces = [
        "a", "1", "2.5", "\"s\"", "true", "mut", ":=", "=", "+", "-", "*", "!", "==", "<",
        "(", ")", "{", "}", ";", "\n", "\n\n\n", "/* c */", "// d\n", "return", ",", ":",
        "fn", "int",
    ];
    let mut checked = 0;
    let mut stack: Vec<Vec<usize>> = vec![vec![]];
    while let Some(choice) = stack.pop() {
        if choice.len() < 5 {
            for i in 0..pieces.len() {
                let mut longer = choice.clone();
                longer.push(i);
                stack.push(longer);
            }
        }
        let source: Vec<&str> = choice.iter().map(|i| pieces[*i]).collect();
        let source = source.join(" ");
        let file = match parse(&source) {
            Ok(file) => file,
            Err(_) => continue,
        };
        if comment_follows_on_a_line(&file.statements) {
            continue;
        }
        let once = file.to_string();
        let twice = reformat(&once);
        assert_eq!(Some(once), twice, "on {:?}", source);
        checked += 1;
    }
    assert!(checked > 1000, "{}", checked);
}

fn comment_follows_on_a_line(statements: &[Box<Statement>]) -> bool {
    for (i, statement) in statements.iter().enumerate() {
        if i > 0
            && matches!(statement.kind, StatementKind::Comment(_))
            && statement.position.start.line == statements[i - 1].position.end.line
        {
            return true;
        }
        let inner = match &statement.kind {
            StatementKind::Block(block) => &block.statements,
            StatementKind::FunctionDeclaration(function) => &function.body.statements,
            _ => continue,
        };
        if comment_follows_on_a_line(inner) {
            return true;
        }
    }
    false
}
