use loris::lexer::Lexer;
use loris::repl::token_labels;
use loris::token::lookup_ident;
use loris::token::Token;
use loris::token::Token::{
    Assign, Asterisk, Bang, Comma, Else, EoF, Equal, False, Function, GraterThan, Identifier, If,
    Illegal, Integer, LBrace, LParen, LessThan, Let, Minus, NotEqual, Plus, RBrace, RParen,
    Return, SemiColon, Slash, True,
};

fn lex_all(input: &str) -> Vec<Token> {
    let mut lexer = Lexer::new(input);
    let mut found = Vec::new();
    loop {
        let token = lexer.next_token();
        let done = token == EoF;
        found.push(token);
        if done {
            return found;
        }
    }
}

#[test]
fn test_next_token() {
    let input = r#"let five = 5;
        let ten = 10;
        
        let add = fn(x, y) {
            x + y;
        };
        
        let result = add(five, ten);
        !-/*5;
        5 < 10 > 5;
        if (5 < 10) {
            return true;
        } else {
            return false;
        }
        100 == 100;
        8!= 9;"#;

    let tests = vec![
        Let,
        Identifier(String::from("five")),
        Assign,
        Integer(String::from("5")),
        SemiColon,
        Let,
        Identifier(String::from("ten")),
        Assign,
        Integer(String::from("10")),
        SemiColon,
        Let,
        Identifier(String::from("add")),
        Assign,
        Function,
        LParen,
        Identifier(String::from("x")),
        Comma,
        Identifier(String::from("y")),
        RParen,
        LBrace,
        Identifier(String::from("x")),
        Plus,
        Identifier(String::from("y")),
        SemiColon,
        RBrace,
        SemiColon,
        Let,
        Identifier(String::from("result")),
        Assign,
        Identifier(String::from("add")),
        LParen,
        Identifier(String::from("five")),
        Comma,
        Identifier(String::from("ten")),
        RParen,
        SemiColon,
        Bang,
        Minus,
        Slash,
        Asterisk,
        Integer(String::from("5")),
        SemiColon,
        Integer(String::from("5")),
        LessThan,
        Integer(String::from("10")),
        GraterThan,
        Integer(String::from("5")),
        SemiColon,
        If,
        LParen,
        Integer(String::from("5")),
        LessThan,
        Integer(String::from("10")),
        RParen,
        LBrace,
        Return,
        True,
        SemiColon,
        RBrace,
        Else,
        LBrace,
        Return,
        False,
        SemiColon,
        RBrace,
        Integer(String::from("100")),
        Equal,
        Integer(String::from("100")),
        SemiColon,
        Integer(String::from("8")),
        NotEqual,
        Integer(String::from("9")),
        SemiColon,
        EoF,
    ];

    let mut lexer = Lexer::new(input);

    for tt in tests.iter() {
        let token = lexer.next_token();
        assert_eq!(&token, tt);
    }
}

#[test]
fn whitespace_only_gives_eof() {
    for input in ["", " ", "\t", "\n", "\r", " \t\r\n  \n\t "] {
        let mut lexer = Lexer::new(input);
        assert_eq!(lexer.next_token(), EoF);
        assert_eq!(lexer.next_token(), EoF);
    }
}

#[test]
fn eof_repeats_after_exhaustion() {
    let mut lexer = Lexer::new("x");
    assert_eq!(lexer.next_token(), Identifier(String::from("x")));
    for _ in 0..5 {
        assert_eq!(lexer.next_token(), EoF);
    }
}

#[test]
fn words_that_are_no_keyword_are_identifiers() {
    for word in ["five", "_", "foo_bar", "Let", "lets", "le", "fnn", "IF", "truefalse", "_x_"] {
        assert_eq!(lex_all(word), vec![Identifier(String::from(word)), EoF]);
    }
}

#[test]
fn keywords_have_their_own_tokens() {
    assert_eq!(lex_all("let"), vec![Let, EoF]);
    assert_eq!(lex_all("fn"), vec![Function, EoF]);
    assert_eq!(lex_all("if"), vec![If, EoF]);
    assert_eq!(lex_all("else"), vec![Else, EoF]);
    assert_eq!(lex_all("return"), vec![Return, EoF]);
    assert_eq!(lex_all("true"), vec![True, EoF]);
    assert_eq!(lex_all("false"), vec![False, EoF]);
}

#[test]
fn lookup_ident_resolves_keywords_and_keeps_other_words() {
    assert_eq!(lookup_ident("let"), Let);
    assert_eq!(lookup_ident("fn"), Function);
    assert_eq!(lookup_ident("if"), If);
    assert_eq!(lookup_ident("else"), Else);
    assert_eq!(lookup_ident("return"), Return);
    assert_eq!(lookup_ident("true"), True);
    assert_eq!(lookup_ident("false"), False);
    assert_eq!(lookup_ident("foobar"), Identifier(String::from("foobar")));
    assert_eq!(lookup_ident("lex"), Identifier(String::from("lex")));
    assert_eq!(lookup_ident("retur"), Identifier(String::from("retur")));
    assert_eq!(lookup_ident(""), Identifier(String::new()));
}

#[test]
fn identifiers_hold_no_digits() {
    assert_eq!(
        lex_all("abc123def"),
        vec![
            Identifier(String::from("abc")),
            Integer(String::from("123")),
            Identifier(String::from("def")),
            EoF,
        ]
    );
}

#[test]
fn digit_runs_are_kept_as_text() {
    for digits in ["0", "5", "007", "0000", "898989", "123456789012345678901234567890"] {
        assert_eq!(lex_all(digits), vec![Integer(String::from(digits)), EoF]);
    }
}

#[test]
fn two_character_operators() {
    assert_eq!(lex_all("=="), vec![Equal, EoF]);
    assert_eq!(lex_all("="), vec![Assign, EoF]);
    assert_eq!(lex_all("!="), vec![NotEqual, EoF]);
    assert_eq!(lex_all("!"), vec![Bang, EoF]);
    assert_eq!(lex_all("==="), vec![Equal, Assign, EoF]);
    assert_eq!(lex_all("!=="), vec![NotEqual, Assign, EoF]);
    assert_eq!(lex_all("= ="), vec![Assign, Assign, EoF]);
    assert_eq!(lex_all("! ="), vec![Bang, Assign, EoF]);
    assert_eq!(lex_all("=!"), vec![Assign, Bang, EoF]);
}

#[test]
fn single_character_punctuation() {
    assert_eq!(
        lex_all("+-*/;(){},<>"),
        vec![
            Plus, Minus, Asterisk, Slash, SemiColon, LParen, RParen, LBrace, RBrace, Comma,
            LessThan, GraterThan, EoF,
        ]
    );
}

#[test]
fn unknown_characters_are_illegal_and_consumed() {
    assert_eq!(lex_all("@"), vec![Illegal, EoF]);
    assert_eq!(
        lex_all("a # b"),
        vec![Identifier(String::from("a")), Illegal, Identifier(String::from("b")), EoF]
    );
    assert_eq!(lex_all("\u{e9}\u{3042}"), vec![Illegal, Illegal, EoF]);
    assert_eq!(lex_all("\u{1F600}"), vec![Illegal, EoF]);
    assert_eq!(
        lex_all("a\u{f1}b \u{1F600}=\u{20AC}=="),
        vec![
            Identifier(String::from("a")),
            Illegal,
            Identifier(String::from("b")),
            Illegal,
            Assign,
            Illegal,
            Equal,
            EoF,
        ]
    );
    assert_eq!(lex_all("\u{a0}"), vec![Illegal, EoF]);
    assert_eq!(lex_all("\"x\""), vec![Illegal, Identifier(String::from("x")), Illegal, EoF]);
}

#[test]
fn scenario_let_five() {
    assert_eq!(
        lex_all("let five = 5;"),
        vec![
            Let,
            Identifier(String::from("five")),
            Assign,
            Integer(String::from("5")),
            SemiColon,
            EoF,
        ]
    );
}

#[test]
fn scenario_not_equal_without_space() {
    assert_eq!(
        lex_all("8!= 9;"),
        vec![Integer(String::from("8")), NotEqual, Integer(String::from("9")), SemiColon, EoF]
    );
}

#[test]
fn tokens_compare_by_variant_and_text() {
    assert_eq!(Identifier(String::from("a")), Identifier(String::from("a")));
    assert_ne!(Identifier(String::from("a")), Identifier(String::from("b")));
    assert_ne!(Identifier(String::from("5")), Integer(String::from("5")));
    assert_ne!(Assign, Equal);
    let token = Integer(String::from("42"));
    assert_eq!(token.clone(), token);
}

#[test]
fn every_token_has_its_label() {
    assert_eq!(Let.label(), "LET");
    assert_eq!(LParen.label(), "LEFT PAREN");
    assert_eq!(RParen.label(), "RIGHT PAREN");
    assert_eq!(LBrace.label(), "LEFT BRACE");
    assert_eq!(RBrace.label(), "RIGHT BRACE");
    assert_eq!(Identifier(String::from("x")).label(), "IDENTIFIER (x)");
    assert_eq!(Plus.label(), "PLUS");
    assert_eq!(Minus.label(), "MINUS");
    assert_eq!(Bang.label(), "BANG");
    assert_eq!(Asterisk.label(), "ASTERISK");
    assert_eq!(Slash.label(), "SLASH");
    assert_eq!(LessThan.label(), "LESS THAN");
    assert_eq!(GraterThan.label(), "GRATER THAN");
    assert_eq!(Integer(String::from("007")).label(), "INTEGER (007)");
    assert_eq!(Comma.label(), "COMMA");
    assert_eq!(SemiColon.label(), "SEMICOLON");
    assert_eq!(Function.label(), "FUNCTION");
    assert_eq!(Assign.label(), "ASSIGN");
    assert_eq!(EoF.label(), "EOF");
    assert_eq!(Illegal.label(), "ILLEGAL");
    assert_eq!(If.label(), "IF");
    assert_eq!(Else.label(), "ELSE");
    assert_eq!(Return.label(), "RETURN");
    assert_eq!(True.label(), "TRUE");
    assert_eq!(False.label(), "FALSE");
    assert_eq!(Equal.label(), "EQUAL");
    assert_eq!(NotEqual.label(), "NOT EQUAL");
}

#[test]
fn token_labels_of_a_line() {
    assert_eq!(
        token_labels("let five = 5;\n"),
        vec!["LET", "IDENTIFIER (five)", "ASSIGN", "INTEGER (5)", "SEMICOLON"]
    );
    assert_eq!(token_labels("   \n"), Vec::<String>::new());
    assert_eq!(token_labels(""), Vec::<String>::new());
    assert_eq!(token_labels("a $"), vec!["IDENTIFIER (a)", "ILLEGAL"]);
}
