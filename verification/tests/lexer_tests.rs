use bias::lexer::{
    char_literal_process, get_escape, get_num_unknowns, is_char_literal, is_indentifier,
    is_invalid_char_literal, is_invalid_str_literal, is_str_literal, is_type, str_literal_process,
    tokenize, try_tokenize, Token, TypeKind,
};

fn print_diff(tokens: &Vec<Token>, expecteds: &Vec<Token>) {
    for token in tokens {
        if !expecteds.contains(token) {
            println!("unexpected token: {:?}", token);
        }
    }
    for token in expecteds {
        if !tokens.contains(token) {
            println!("token: {:?} not found", token);
        }
    }
}

#[test]
fn hellow_test() {
    let hellow_program = "[entry_point]\nfunc main() {\n    println(\"hello, world !\");\n}";
    let tokens = tokenize(hellow_program).expect("Lexical error");
    let expecteds: Vec<Token> = vec![
        Token::OpenSqrBrackets,
        Token::Identifier(String::from("entry_point")),
        Token::CloseSqrBrackets,
        Token::Func,
        Token::Identifier(String::from("main")),
        Token::OpenParentheses,
        Token::CloseParentheses,
        Token::OpenCurlyBrackets,
        Token::Identifier(String::from("println")),
        Token::OpenParentheses,
        Token::StringLiteral(String::from("hello, world !")),
        Token::CloseParentheses,
        Token::SemiColon,
        Token::CloseCurlyBrackets,
        Token::EOF,
    ];
    print_diff(&tokens, &expecteds);
    assert!(tokens == expecteds);
}

#[test]
fn identifiers() {
    assert!(is_indentifier("foo_1"));
    assert!(is_indentifier("_"));
    assert!(is_indentifier("a1"));
    assert!(!is_indentifier("1abc"));
    assert!(!is_indentifier("a-b"));
    assert!(!is_indentifier("-"));
    assert!(is_indentifier(""));
}

#[test]
fn string_literals() {
    assert!(is_str_literal("\"abc\""));
    assert!(!is_str_literal("\""));
    assert!(!is_str_literal("\"a\\\""));
    assert!(is_invalid_str_literal("\"a\\\""));
    assert!(is_str_literal("\"a\\\\\""));
    assert!(!is_invalid_str_literal("\"a\\\\\""));
    assert!(is_invalid_str_literal("\"ab"));
    assert!(!is_invalid_str_literal("ab"));
    assert!(!is_str_literal("ab"));
}

#[test]
fn char_literals() {
    assert!(is_char_literal("'a'"));
    assert!(is_char_literal("''n'"));
    assert!(!is_char_literal("'\\n'"));
    assert!(!is_invalid_char_literal("'\\n'"));
    assert!(is_invalid_char_literal("'a"));
    assert!(is_invalid_char_literal("'"));
    assert!(!is_invalid_char_literal("'a'"));
    assert!(!is_char_literal("'ab'"));
    assert_eq!(char_literal_process(String::from("'a'")), 'a');
    assert_eq!(char_literal_process(String::from("''n'")), '\n');
    assert_eq!(char_literal_process(String::from("'")), '\0');
}

#[test]
fn escapes() {
    assert_eq!(get_escape('n'), '\n');
    assert_eq!(get_escape('r'), '\r');
    assert_eq!(get_escape('0'), '\0');
    assert_eq!(get_escape('x'), 'x');
    assert_eq!(str_literal_process(String::from("\"a\\nb\"")), "a\nb");
    assert_eq!(str_literal_process(String::from("\"a\\\\b\"")), "a\\b");
    assert_eq!(str_literal_process(String::from("abc")), "abc");
}

#[test]
fn tokens_from_text() {
    assert_eq!(Token::from_str("42").unwrap(), Token::Uint(42));
    assert_eq!(Token::from_str("-42").unwrap(), Token::Int(-42));
    assert_eq!(Token::from_str("1.5").unwrap(), Token::Float(String::from("1.5")));
    assert_eq!(Token::from_str("func").unwrap(), Token::Func);
    assert_eq!(Token::from_str("let").unwrap(), Token::Let);
    assert_eq!(Token::from_str("&&").unwrap(), Token::BoolAnd);
    assert_eq!(Token::from_str("##").unwrap(), Token::BoolXor);
    assert_eq!(Token::from_str("foo").unwrap(), Token::Identifier(String::from("foo")));
    assert_eq!(Token::from_str("\"x y\"").unwrap(), Token::StringLiteral(String::from("x y")));
    assert_eq!(Token::from_str("\"x").unwrap(), Token::InvalidStringLiteral(String::from("\"x")));
    assert_eq!(Token::from_str("'a'").unwrap(), Token::CharLiteral('a'));
    assert!(Token::from_str("@").is_err());
    assert!(Token::from_str("").is_err());
    assert!(Token::from_str("a b").is_err());
}

#[test]
fn type_checks() {
    assert!(is_type("42", TypeKind::Uint));
    assert!(!is_type("-1", TypeKind::Uint));
    assert!(is_type("-1", TypeKind::Int));
    assert!(is_type("1e3", TypeKind::Float));
    assert!(is_type("inf", TypeKind::Float));
    assert!(!is_type("1.5.2", TypeKind::Float));
    assert!(is_type("(", TypeKind::Token));
    assert!(!is_type("@", TypeKind::Token));
}

#[test]
fn unknown_symbols() {
    assert_eq!(get_num_unknowns("@@a"), 2);
    assert_eq!(get_num_unknowns("a"), 0);
    assert_eq!(get_num_unknowns("@"), 1);
}

#[test]
fn tokenize_a_declaration() {
    let tokens = tokenize("let x = 5;").unwrap();
    assert_eq!(
        tokens,
        vec![
            Token::Let,
            Token::Identifier(String::from("x")),
            Token::Equal,
            Token::Uint(5),
            Token::SemiColon,
            Token::EOF,
        ]
    );
}

#[test]
fn tokenize_keeps_blanks_in_string_literals() {
    let tokens = tokenize("\"a  b\" c").unwrap();
    assert_eq!(
        tokens,
        vec![
            Token::StringLiteral(String::from("a  b")),
            Token::Identifier(String::from("c")),
            Token::EOF,
        ]
    );
}

#[test]
fn tokenize_errors() {
    match tokenize("@") {
        Err(e) => assert_eq!(e.fmt(), "Unknown token kind\n@\n\x1b[38;5;196m^unknown symbol(s) '@'\x1b[0m"),
        Ok(_) => panic!("@ is no token"),
    }
    match tokenize("x\n") {
        Err(e) => assert_eq!(e.fmt(), "Unknown token kind\n\n\x1b[38;5;196munknown symbol(s) \x1b[0m"),
        Ok(_) => panic!("a final newline leaves an empty token"),
    }
    assert!(try_tokenize("\"é\"").is_none());
    assert!(try_tokenize("€").is_none());
    assert!(try_tokenize("let").is_some());
}

#[test]
fn identifiers_and_numbers() {
    assert!(is_indentifier("entry_point"));
    assert!(is_indentifier("_x1"));
    assert!(!is_indentifier("a.b"));
    assert!(!is_indentifier("9lives"));
    assert_eq!(Token::from_str("inf").unwrap(), Token::Float(String::from("inf")));
    assert_eq!(
        Token::from_str("18446744073709551616").unwrap(),
        Token::Float(String::from("18446744073709551616"))
    );
    assert_eq!(Token::from_str("+5").unwrap(), Token::Uint(5));
    assert_eq!(Token::from_str("-5").unwrap(), Token::Int(-5));
    assert_eq!(Token::from_str("entry_point").unwrap(), Token::Identifier(String::from("entry_point")));
}
