use x_compiler::ast::Type;
use x_compiler::fmt::{Format, Formatter};
use x_compiler::parser::{Error, Parser};

#[test]
fn fmt_formatted_program() {
    let source = r#"// Comment
1 + 2
"Hello World"
a := 5 > 10
"#;

    let want = r#"// Comment
1 + 2
"Hello World"
a := 5 > 10
"#;

    assert_fmt_equal(source, want);
}

#[test]
fn fmt_unformatted_program() {
    let source = r#"
// Comment
1   +  2
"Hello World";
a  := 5>10
"#;

    let want = r#"// Comment
1 + 2
"Hello World"
a := 5 > 10
"#;

    assert_fmt_equal(source, want);
}

#[test]
fn fmt_verbose_program() {
    let source = r#"// Comment
((1 + 2) - 3)
mut a := true
"#;
    let want = r#"// Comment
1 + 2 - 3
mut a := true
"#;

    assert_fmt_equal(source, want);
}

fn assert_fmt_equal(source: &str, want: &str) {
    let mut parser = Parser::new(source);
    let file = parser.parse().unwrap();

    let got = format!("{}", file.to_string());

    assert_eq!(want, got);
}

fn format_source(source: &str) -> String {
    Parser::new(source).parse().unwrap().to_string()
}

#[test]
fn fmt_two_blank_lines_become_one() {
    assert_eq!(format_source("a := 1\n\n\nb := 2\n"), "a := 1\n\nb := 2\n");
    assert_eq!(format_source("a := 1\n\n\n\n\nb := 2\n"), "a := 1\n\nb := 2\n");
}

#[test]
fn fmt_no_blank_line_stays_none() {
    assert_eq!(format_source("a := 1\nb := 2\n"), "a := 1\nb := 2\n");
    assert_eq!(format_source("a := 1; b := 2"), "a := 1\nb := 2\n");
}

#[test]
fn fmt_one_blank_line_stays_one() {
    // the statements lie two lines apart
    assert_eq!(format_source("a := 1\n\nb := 2\n"), "a := 1\n\nb := 2\n");
}

#[test]
fn fmt_comment_stays_on_the_line_of_its_statement() {
    assert_eq!(format_source("1 + 2; // note"), "1 + 2 // note\n");
    assert_eq!(format_source("1+2;/* note */"), "1 + 2 /* note */\n");
    assert_eq!(format_source("1 + 2\n// note"), "1 + 2\n// note\n");
}

#[test]
fn fmt_comment_needs_a_separator_before_it() {
    let got = Parser::new("1 + 2 // note").parse();
    match got {
        Err(Error::UnexpectedToken { want, got, .. }) => {
            assert_eq!(want, "statement separator");
            assert_eq!(got, "// note");
        }
        other => panic!("{:?}", other),
    }
}

#[test]
fn fmt_is_stable_on_its_own_output() {
    for source in [
        "a:=1\n\n\n\nb  =  2;c := -a*(b+3)   /   4 % 5",
        "fn  main ( ) {\n return  0\n}",
        "fn foo(bar: string, baz: (int, bool)): int {\n  mut x := bar != \"a\"\n\n\n  return 42\n}",
        "// a\n/* b\n c */\n!true == false\n",
        "{ 1\n { 2\n 3; }\n }",
        "",
    ] {
        let once = format_source(source);
        let twice = format_source(&once);
        assert_eq!(once, twice, "on {:?}", source);
    }
}

#[test]
fn fmt_empty_file_is_one_new_line() {
    assert_eq!(format_source(""), "\n");
    assert_eq!(format_source(" \n\n "), "\n");
}

#[test]
fn fmt_block_indents_one_level() {
    assert_eq!(
        format_source("fn main() { a := 1; { b := 2; }\n return a\n}"),
        "fn main() {\n  a := 1\n  {\n    b := 2\n  }\n  return a\n}\n"
    );
}

#[test]
fn fmt_function_declaration_head() {
    assert_eq!(
        format_source("fn f(a: int, b: { x: float = 1.5, y: fn (c: T): bool }): (int, string) { }"),
        "fn f(a: int, b: { x: float = 1.5, y: fn (c: T): bool }): (int, string) {\n\n}\n"
    );
}

#[test]
fn fmt_prefix_and_infix_spacing() {
    assert_eq!(format_source("- 1 + ! a"), "-1 + !a\n");
    assert_eq!(format_source("1*(2+3)"), "1 * 2 + 3\n");
    assert_eq!(format_source("7/8%2"), "7 / 8 % 2\n");
}

#[test]
fn fmt_indent_unit_and_level() {
    let file = Parser::new("{ 1; }").parse().unwrap();
    let mut tabs = Formatter::new("\t", false);
    assert_eq!(file.fmt(&mut tabs), "{\n\t1\n}\n");
    tabs.push_indent();
    assert_eq!(tabs.indent(), "\t");
    assert_eq!(file.fmt(&mut tabs), "\t{\n\t\t1\n\t}\n");
    assert_eq!(tabs.indent(), "\t");
    tabs.pop_indent();
    tabs.pop_indent();
    assert_eq!(tabs.indent(), "");
    let mut fmt = Formatter::default();
    assert!(!fmt.verbose);
    fmt.push_indent();
    fmt.push_indent();
    assert_eq!(fmt.indent(), "    ");
}

#[test]
fn fmt_join_renders_and_separates() {
    let typ = Parser::new("fn (a: int, b: bool, c: T)").parse_type().unwrap();
    let parameters = match typ {
        Type::Function(function) => function.parameters,
        other => panic!("{:?}", other),
    };
    let mut fmt = Formatter::default();
    assert_eq!(fmt.join(&parameters[..], " | "), "a: int | b: bool | c: T");
    assert_eq!(fmt.join(&parameters[..1], " | "), "a: int");
    assert_eq!(fmt.join(&parameters[..0], " | "), "");
    let borrowed: Vec<&x_compiler::ast::Parameter> = parameters.iter().collect();
    assert_eq!(fmt.join(&borrowed[..], ", "), "a: int, b: bool, c: T");
}

#[test]
fn fmt_closing_brace_does_not_end_a_statement() {
    // a statement ends at a semicolon, at a new line or at the end, not at a brace
    match Parser::new("{ 1 }").parse() {
        Err(Error::UnexpectedToken { want, got, .. }) => {
            assert_eq!(want, "statement separator");
            assert_eq!(got, "}");
        }
        other => panic!("{:?}", other),
    }
    assert_eq!(format_source("{ 1\n}"), "{\n  1\n}\n");
}

#[test]
fn fmt_closing_brace_stands_at_the_level_of_its_block() {
    assert_eq!(format_source("{\n{\n1\n}\n}"), "{\n  {\n    1\n  }\n}\n");
    assert_eq!(
        format_source("fn f() {\n{\n{\n}\n}\nfn g() {\n}\n}"),
        "fn f() {\n  {\n    {\n\n    }\n  }\n  fn g() {\n\n  }\n}\n"
    );
    let file = Parser::new("{\n{\n1\n}\n}").parse().unwrap();
    let mut fmt = Formatter::default();
    fmt.push_indent();
    fmt.push_indent();
    let before = fmt.indent();
    assert_eq!(
        file.statements[0].fmt(&mut fmt),
        "    {\n      {\n        1\n      }\n    }"
    );
    assert_eq!(fmt.indent(), before);
}

fn type_of(source: &str) -> Type {
    let mut parser = Parser::new(source);
    let typ = parser.parse_type().unwrap();
    assert_eq!(parser.current().token, x_compiler::token::Token::EOF);
    typ
}

#[test]
fn fmt_type_parses_back_as_the_same_type() {
    for source in [
        "int",
        "T",
        "()",
        "(int,)",
        "(string\nbool)",
        "{}",
        "{ foo: string, bar: (int, T) }",
        "fn ()",
        "fn (bar: int): (string, bool)",
        "fn (f: fn (a: { x: float }): fn (): T, g: ())",
    ] {
        let typ = type_of(source);
        let text = typ.fmt(&mut Formatter::default());
        assert_eq!(type_of(&text), typ, "on {:?}", source);
    }
    assert_eq!(type_of("{}").fmt(&mut Formatter::default()), "{  }");
}

#[test]
fn fmt_type_with_a_default_parses_back_with_the_same_text() {
    let typ = type_of("{foo:string,bar:bool=!false==(true)}");
    let text = typ.fmt(&mut Formatter::default());
    assert_eq!(text, "{ foo: string, bar: bool = !false == true }");
    let again = type_of(&text);
    assert_eq!(again.fmt(&mut Formatter::default()), text);
    // the default holds its place in the source, so the two types differ
    assert_ne!(again, typ);
}
