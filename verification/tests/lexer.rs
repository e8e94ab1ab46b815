use x_compiler::lexer::{Error, Lexer};
use x_compiler::token::{Position, Token};
use x_compiler::token::Token::{
    Assign, Asterisk, BlockComment, Colon, Declare, Equal, ExclamationMark, False, Float,
    Function, GreaterThan, Identifier, Integer, LeftBrace, LeftParenthesis, LessThan,
    LineComment, Minus, Mutable, NotEqual, Plus, Return, RightBrace, RightParenthesis,
    Semicolon, Slash, True, EOF,
};

#[test]
fn lex_comment() {
    let source = r#"
// Comment
/* Comment */
// /* Nested Comment */
/* // Nested Comment */
/*
  Comment
  /* Nested Comment */
*/
"#;

    let want = &[
        LineComment(" Comment".into()),
        BlockComment(" Comment ".into()),
        LineComment(" /* Nested Comment */".into()),
        BlockComment(" // Nested Comment ".into()),
        BlockComment("\n  Comment\n  /* Nested Comment */\n".into()),
    ];

    assert_tokens_equal(source, want);
}

#[test]
fn lex_arithmetic_expressions() {
    let source = r#"
1+2
3-4
5 * 6
7 / 8
9 == 9
10 != 11
5 < 10 > 6
true
!false
(1 + 2) / 3.141
"#;

    let want = &[
        // 1+2
        Integer("1".into()),
        Plus,
        Integer("2".into()),
        // 3-4
        Integer("3".into()),
        Minus,
        Integer("4".into()),
        // 5 * 6
        Integer("5".into()),
        Asterisk,
        Integer("6".into()),
        // 7 / 8
        Integer("7".into()),
        Slash,
        Integer("8".into()),
        // 9 == 9
        Integer("9".into()),
        Equal,
        Integer("9".into()),
        // 10 != 11
        Integer("10".into()),
        NotEqual,
        Integer("11".into()),
        // 5 < 10 > 6
        Integer("5".into()),
        LessThan,
        Integer("10".into()),
        GreaterThan,
        Integer("6".into()),
        // true
        True,
        // !false
        ExclamationMark,
        False,
        // (1 + 2) / 3.141
        LeftParenthesis,
        Integer("1".into()),
        Plus,
        Integer("2".into()),
        RightParenthesis,
        Slash,
        Float("3.141".into()),
    ];

    assert_tokens_equal(source, want);
}

#[test]
fn lex_statements() {
    let source = r#"
mut a := 1;
a = 2
"#;

    let want = &[
        // mut a := 1
        Mutable,
        Identifier("a".into()),
        Declare,
        Integer("1".into()),
        Semicolon,
        // a = 2
        Identifier("a".into()),
        Assign,
        Integer("2".into()),
    ];

    assert_tokens_equal(source, want);
}

#[test]
fn lex_functions() {
    let source = r#"
fn test(): string {
    return "Hello World"
}
"#;

    let want = &[
        // fn test(): int {
        Function,
        Identifier("test".into()),
        LeftParenthesis,
        RightParenthesis,
        Colon,
        Identifier("string".into()),
        LeftBrace,
        // return 42
        Return,
        Token::String("Hello World".into()),
        // }
        RightBrace,
    ];

    assert_tokens_equal(source, want);
}

fn assert_tokens_equal(source: &str, want: &[Token]) {
    let mut lexer = Lexer::new(source);
    let mut got = vec![];
    while lexer.next().expect("failed to lex token") != EOF {
        got.push((lexer.token(), lexer.position()));
    }

    for (want, (got, got_pos)) in want.iter().zip(&got) {
        assert_eq!(want, got, "token not equal");
        let got_literal = &source[got_pos.start.offset..got_pos.end.offset + 1];
        assert_eq!(
            want.to_string(),
            got_literal,
            "token literal does not match source"
        )
    }
    assert_eq!(
        want.len(),
        got.len(),
        "number of tokens does not match expected"
    )
}

fn lex_all(source: &str) -> Vec<(Token, (usize, usize, usize), (usize, usize, usize))> {
    let mut lexer = Lexer::new(source);
    let mut got = vec![];
    loop {
        let token = lexer.next().expect("failed to lex token");
        if token == EOF {
            return got;
        }
        let span = lexer.position();
        got.push((
            token,
            (span.start.offset, span.start.line, span.start.line_offset),
            (span.end.offset, span.end.line, span.end.line_offset),
        ));
    }
}

#[test]
fn lex_nested_block_comment_is_one_token() {
    let got = lex_all("/* a /* b */ c */");
    assert_eq!(
        got,
        vec![(BlockComment(" a /* b */ c ".into()), (0, 1, 0), (16, 1, 0))]
    );
}

#[test]
fn lex_unterminated_string_fails_at_the_end() {
    let mut lexer = Lexer::new("\"abc");
    assert_eq!(
        lexer.next(),
        Err(Error::UnexpectedEOF {
            position: Position::from((4, 1, 0))
        })
    );
    // the lexer stands at the end afterwards
    assert_eq!(lexer.next(), Ok(EOF));
    assert_eq!(lexer.next(), Ok(EOF));
}

#[test]
fn lex_unterminated_block_comment_fails_at_the_end() {
    let mut lexer = Lexer::new("1 /* a /* b */");
    assert_eq!(lexer.next(), Ok(Integer("1".into())));
    assert_eq!(
        lexer.next(),
        Err(Error::UnexpectedEOF {
            position: Position::from((14, 1, 0))
        })
    );
    let mut inner = Lexer::new("/* a /* b ");
    assert_eq!(
        inner.next(),
        Err(Error::UnexpectedEOF {
            position: Position::from((10, 1, 0))
        })
    );
}

#[test]
fn lex_spans_count_bytes_and_lines() {
    let got = lex_all("é1 := \"ü\"\n  x");
    assert_eq!(
        got,
        vec![
            (Identifier("é1".into()), (0, 1, 0), (2, 1, 0)),
            (Declare, (4, 1, 0), (5, 1, 0)),
            (Token::String("ü".into()), (7, 1, 0), (10, 1, 0)),
            (Identifier("x".into()), (14, 2, 12), (14, 2, 12)),
        ]
    );
}

#[test]
fn lex_span_slices_give_the_literal() {
    let source = "fn é(a: int): bool { /* ü /* ö */ */ return a != 1.5 // ä\n}";
    let mut lexer = Lexer::new(source);
    let mut seen = 0;
    loop {
        let token = lexer.next().unwrap();
        if token == EOF {
            break;
        }
        let span = lexer.position();
        assert_eq!(
            token.to_string(),
            &source[span.start.offset..span.end.offset + 1]
        );
        seen += 1;
    }
    assert_eq!(seen, 17);
}

#[test]
fn lex_number_takes_one_dot_only() {
    let got: Vec<Token> = lex_all("1.2.3 4. 5").into_iter().map(|t| t.0).collect();
    assert_eq!(
        got,
        vec![
            Float("1.2".into()),
            Token::Dot,
            Integer("3".into()),
            Float("4.".into()),
            Integer("5".into()),
        ]
    );
}

#[test]
fn lex_two_character_operators() {
    let got: Vec<Token> = lex_all(":= : == = != ! =:").into_iter().map(|t| t.0).collect();
    assert_eq!(
        got,
        vec![Declare, Colon, Equal, Assign, NotEqual, ExclamationMark, Assign, Colon]
    );
}

#[test]
fn lex_keywords_and_identifiers() {
    let got: Vec<Token> = lex_all("true false mut fn return truth _x a1 fnx")
        .into_iter()
        .map(|t| t.0)
        .collect();
    assert_eq!(
        got,
        vec![
            True,
            False,
            Mutable,
            Function,
            Return,
            Identifier("truth".into()),
            Identifier("_x".into()),
            Identifier("a1".into()),
            Identifier("fnx".into()),
        ]
    );
    assert_eq!(Token::match_keyword("mut"), Some(Mutable));
    assert_eq!(Token::match_keyword("mutt"), None);
    assert_eq!(Token::match_keyword(""), None);
}

#[test]
fn lex_illegal_characters() {
    let got = lex_all("a # \0 €b");
    assert_eq!(
        got,
        vec![
            (Identifier("a".into()), (0, 1, 0), (0, 1, 0)),
            (Token::Illegal, (2, 1, 0), (2, 1, 0)),
            (Token::Illegal, (4, 1, 0), (4, 1, 0)),
            (Token::Illegal, (6, 1, 0), (6, 1, 0)),
            (Identifier("b".into()), (9, 1, 0), (9, 1, 0)),
        ]
    );
}

#[test]
fn lex_null_inside_text_is_kept() {
    let got: Vec<Token> = lex_all("\"a\0b\" // c\0d\n/* e\0f */")
        .into_iter()
        .map(|t| t.0)
        .collect();
    assert_eq!(
        got,
        vec![
            Token::String("a\0b".into()),
            LineComment(" c\0d".into()),
            BlockComment(" e\0f ".into()),
        ]
    );
}

#[test]
fn lex_empty_source_is_eof() {
    let mut lexer = Lexer::new("");
    assert_eq!(lexer.token(), EOF);
    assert_eq!(lexer.next(), Ok(EOF));
    assert_eq!(lexer.position().start, Position::from((0, 1, 0)));
    let mut blank = Lexer::new(" \n\t\r\n ");
    assert_eq!(blank.next(), Ok(EOF));
    assert_eq!(blank.position().start, Position::from((6, 3, 5)));
    assert_eq!(blank.position().end, Position::from((6, 3, 5)));
}

#[test]
fn token_renderings() {
    assert_eq!(Token::Illegal.to_string(), "ILLEGAL");
    assert_eq!(EOF.to_string(), "ILLEGAL");
    assert_eq!(LineComment(" a".into()).to_string(), "// a");
    assert_eq!(BlockComment(" a ".into()).to_string(), "/* a */");
    assert_eq!(Token::String("a b".into()).to_string(), "\"a b\"");
    assert_eq!(Declare.to_string(), ":=");
    assert_eq!(LeftBrace.to_string(), "{");
    assert_eq!(RightBrace.to_string(), "}");
    assert_eq!(Return.to_string(), "return");
    assert!(Plus.same(&Plus));
    assert!(!Plus.same(&Minus));
    assert!(Integer("1".into()).same(&Integer("1".into())));
    assert!(!Integer("1".into()).same(&Integer("2".into())));
    assert!(!Integer("1".into()).same(&Float("1".into())));
    assert_eq!(Integer("12".into()).clone(), Integer("12".into()));
}
