use loris::ast::Expression;
use loris::ast::Program;
use loris::ast::Statement;
use loris::lexer::Lexer;
use loris::parser::Parser;
use loris::parser::ParserError;
use loris::token::Token;

fn test_let_statement(name: &str, s: &Statement) -> bool {
    match s {
        Statement::Let {
            token: t,
            name: n,
            value: _v,
        } => (t == &Token::Let) && (n.as_str() == name),
        _ => false,
    }
}

fn check_parser_errors(parser: &Parser) {
    if parser.errors().len() > 0 {
        let message = parser.errors().iter().fold(String::new(), |mut m, err| {
            m.push_str(&format!("{}\n", err.message()));
            m
        });
        panic!("{}", message);
    }
}

fn parse(input: &str) -> (Program, Parser) {
    let lxr = Lexer::new(input);
    let mut prsr = Parser::new(lxr);
    let program = prsr.parse_program();
    (program, prsr)
}

fn is_return(s: &Statement) -> bool {
    match s {
        Statement::Return { token, value } => token == &Token::Return && value.is_none(),
        _ => false,
    }
}

fn is_illegal(s: &Statement) -> bool {
    matches!(s, Statement::Illegal)
}

#[test]
fn test_let_statements() {
    let input = r#"
        let x = 5;
        let y = 10;
        let foobar = 898989;
        "#;

    let lxr = Lexer::new(input);
    let mut prsr = Parser::new(lxr);

    let program = prsr.parse_program();
    check_parser_errors(&prsr);

    assert_eq!(program.statements.len(), 3);

    let tests = vec!["x", "y", "foobar"];
    for (expected, stmt) in tests.iter().zip(program.statements.iter()) {
        assert!(test_let_statement(expected, stmt));
    }
}

#[test]
fn test_return_statements() {
    let input = r#"
        return 5;
        return 10;
        return 999322;"#;

    let lxr = Lexer::new(input);
    let mut prsr = Parser::new(lxr);

    let program = prsr.parse_program();
    check_parser_errors(&prsr);

    for stmt in program.statements.iter() {
        if let Statement::Return { token: _, value: _ } = stmt {
        } else {
            panic!("not return");
        }
    }
}

#[test]
fn scenario_three_let_statements() {
    let (program, parser) = parse("let x = 5;\nlet y = 10;\nlet foobar = 898989;");
    assert_eq!(program.statements.len(), 3);
    assert!(test_let_statement("x", &program.statements[0]));
    assert!(test_let_statement("y", &program.statements[1]));
    assert!(test_let_statement("foobar", &program.statements[2]));
    for stmt in program.statements.iter() {
        match stmt {
            Statement::Let { value, .. } => assert!(value.is_none()),
            _ => panic!("not let"),
        }
    }
    assert!(parser.errors().is_empty());
}

#[test]
fn scenario_let_without_identifier() {
    let (program, parser) = parse("let = 5;");
    assert!(is_illegal(&program.statements[0]));
    assert_eq!(parser.errors().len(), 1);
    assert_eq!(parser.errors()[0].expected(), &Token::Identifier(String::from("something")));
    assert_eq!(parser.errors()[0].next(), &Token::Assign);
    // The parser goes on from the very next token: `=`, `5` and `;` are
    // each a statement of their own.
    assert_eq!(program.statements.len(), 4);
    assert!(program.statements.iter().all(is_illegal));
}

#[test]
fn scenario_two_return_statements() {
    let (program, parser) = parse("return 5;\nreturn 10;");
    assert_eq!(program.statements.len(), 2);
    assert!(program.statements.iter().all(is_return));
    assert!(parser.errors().is_empty());
}

#[test]
fn three_return_statements() {
    let (program, parser) =
        parse("\n        return 5;\n        return 10;\n        return 999322;");
    assert_eq!(program.statements.len(), 3);
    assert!(program.statements.iter().all(is_return));
    assert!(parser.errors().is_empty());
}

#[test]
fn let_without_assign() {
    let (program, parser) = parse("let x 5;");
    assert_eq!(parser.errors().len(), 1);
    assert_eq!(parser.errors()[0].expected(), &Token::Assign);
    assert_eq!(parser.errors()[0].next(), &Token::Integer(String::from("5")));
    // The parser stopped at `x`; `5` and `;` follow as statements.
    assert_eq!(program.statements.len(), 3);
    assert!(program.statements.iter().all(is_illegal));
}

#[test]
fn error_message_names_both_tokens() {
    let (_, parser) = parse("let = 5;");
    assert_eq!(
        parser.errors()[0].message(),
        "expected next token IDENTIFIER (something), got ASSIGN insted"
    );
    let (_, parser) = parse("let x 5;");
    assert_eq!(
        parser.errors()[0].message(),
        "expected next token ASSIGN, got INTEGER (5) insted"
    );
    let (_, parser) = parse("let");
    assert_eq!(
        parser.errors()[0].message(),
        "expected next token IDENTIFIER (something), got EOF insted"
    );
}

#[test]
fn errors_accumulate_in_order() {
    let (program, parser) = parse("let = 1; let y 2; let z = 3;");
    assert_eq!(parser.errors().len(), 2);
    assert_eq!(parser.errors()[0].expected(), &Token::Identifier(String::from("something")));
    assert_eq!(parser.errors()[1].expected(), &Token::Assign);
    assert_eq!(parser.errors()[1].next(), &Token::Integer(String::from("2")));
    // let, =, 1, ; then let(y), 2, ; then the good let.
    assert_eq!(program.statements.len(), 8);
    assert!(test_let_statement("z", &program.statements[7]));
    assert!(program.statements[..7].iter().all(is_illegal));
}

#[test]
fn other_statements_are_illegal_token_by_token() {
    let (program, parser) = parse("x + y;");
    assert_eq!(program.statements.len(), 4);
    assert!(program.statements.iter().all(is_illegal));
    assert!(parser.errors().is_empty());
}

#[test]
fn empty_input_gives_empty_program() {
    for input in ["", "  \n\t "] {
        let (program, parser) = parse(input);
        assert!(program.statements.is_empty());
        assert!(parser.errors().is_empty());
    }
    assert!(Program::new().statements.is_empty());
}

#[test]
fn statement_without_semicolon_ends_with_the_input() {
    let (program, parser) = parse("return 5");
    assert_eq!(program.statements.len(), 1);
    assert!(is_return(&program.statements[0]));
    assert!(parser.errors().is_empty());

    let (program, parser) = parse("let x = 5");
    assert_eq!(program.statements.len(), 1);
    assert!(test_let_statement("x", &program.statements[0]));
    assert!(parser.errors().is_empty());

    let (program, parser) = parse("let x =");
    assert_eq!(program.statements.len(), 1);
    assert!(test_let_statement("x", &program.statements[0]));
    assert!(parser.errors().is_empty());
}

#[test]
fn value_is_passed_over_up_to_the_semicolon() {
    let (program, parser) = parse("let a = fn(x, y) { x + y }; return a;");
    assert_eq!(program.statements.len(), 2);
    assert!(test_let_statement("a", &program.statements[0]));
    assert!(is_return(&program.statements[1]));
    assert!(parser.errors().is_empty());
}

#[test]
fn next_token_moves_one_token_on() {
    let mut parser = Parser::new(Lexer::new("; return 1;"));
    parser.next_token();
    let program = parser.parse_program();
    assert_eq!(program.statements.len(), 1);
    assert!(is_return(&program.statements[0]));

    // At the end of the input, moving on changes nothing.
    parser.next_token();
    parser.next_token();
    assert!(parser.parse_program().statements.is_empty());
    assert!(parser.errors().is_empty());
}

#[test]
fn parser_starts_where_the_lexer_stands() {
    let mut lexer = Lexer::new("let let x = 1;");
    assert_eq!(lexer.next_token(), Token::Let);
    let mut parser = Parser::new(lexer);
    let program = parser.parse_program();
    assert_eq!(program.statements.len(), 1);
    assert!(test_let_statement("x", &program.statements[0]));
    assert!(parser.errors().is_empty());
}

#[test]
fn statements_describe_themselves() {
    let (program, _) = parse("let x = 5; return 1; 7");
    assert_eq!(program.statements[0].describe(), "Let(token:LET, name:x, value:)");
    assert_eq!(program.statements[1].describe(), "Return(token:RETURN, value:)");
    assert_eq!(program.statements[2].describe(), "Illegal()");
    let expression = Expression::Identifier {
        token: Token::Identifier(String::from("x")),
        value: String::from("x"),
    };
    assert_eq!(expression.describe(), "Let(token:IDENTIFIER (x), value:x)");
}

#[test]
fn parser_error_keeps_both_tokens() {
    let error = ParserError::new(Token::Assign, Token::Integer(String::from("5")));
    assert_eq!(error.expected(), &Token::Assign);
    assert_eq!(error.next(), &Token::Integer(String::from("5")));
    assert_eq!(error.message(), "expected next token ASSIGN, got INTEGER (5) insted");
}

#[test]
fn illegal_characters_pass_through_the_parser() {
    let (program, parser) = parse("let caf\u{e9} = 1;");
    // `caf` is the name; the accent is an illegal token where `=` should be.
    assert_eq!(parser.errors().len(), 1);
    assert_eq!(parser.errors()[0].expected(), &Token::Assign);
    assert_eq!(parser.errors()[0].next(), &Token::Illegal);
    assert!(program.statements.iter().all(is_illegal));
    assert_eq!(program.statements.len(), 5);
}
