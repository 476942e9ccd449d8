use bias::error::Error;
use bias::lexer::{tokenize, Token};
use bias::parser::{get_binding_power, parse, parse_checked, SyntaxNode};

fn id(s: &str) -> Token {
    Token::Identifier(String::from(s))
}

fn lit(t: Token) -> SyntaxNode {
    SyntaxNode::ExprLiteral(t)
}

#[test]
fn parse_hello_world_program() {
    let tokens =
        tokenize("[entry_point]\nfunc main() {\n    println(\"hello, world !\");\n}").unwrap();
    let ast = parse(&tokens).unwrap();
    let expected = SyntaxNode::Scope(vec![SyntaxNode::FuncDef(vec![
        SyntaxNode::FuncHeader(vec![id("entry_point")]),
        SyntaxNode::FuncName(id("main")),
        SyntaxNode::FuncParams(vec![]),
        SyntaxNode::Scope(vec![SyntaxNode::FuncCall(vec![
            SyntaxNode::FuncName(id("println")),
            SyntaxNode::FuncArgs(vec![lit(Token::StringLiteral(String::from("hello, world !")))]),
        ])]),
    ])]);
    assert_eq!(ast, expected);
}

#[test]
fn parse_variable_declaration_with_precedence() {
    let tokens = tokenize("let int x = 1 + 2 * 3;").unwrap();
    let ast = parse(&tokens).unwrap();
    let expected = SyntaxNode::Scope(vec![SyntaxNode::VarDecl(vec![
        SyntaxNode::Var(id("x"), Box::new(SyntaxNode::Type(id("int")))),
        SyntaxNode::Expr(
            Token::Plus,
            vec![
                lit(Token::Uint(1)),
                SyntaxNode::Expr(Token::Times, vec![lit(Token::Uint(2)), lit(Token::Uint(3))]),
            ],
        ),
    ])]);
    assert_eq!(ast, expected);
}

#[test]
fn parse_left_associative_minus() {
    let tokens = tokenize("x = 1 - 2 - 3;").unwrap();
    let ast = parse(&tokens).unwrap();
    let expected = SyntaxNode::Scope(vec![SyntaxNode::VarModif(
        id("x"),
        Token::Equal,
        Box::new(SyntaxNode::Expr(
            Token::Minus,
            vec![
                SyntaxNode::Expr(Token::Minus, vec![lit(Token::Uint(1)), lit(Token::Uint(2))]),
                lit(Token::Uint(3)),
            ],
        )),
    )]);
    assert_eq!(ast, expected);
}

#[test]
fn parse_declaration_without_value() {
    let tokens = tokenize("let int x;").unwrap();
    let ast = parse(&tokens).unwrap();
    let expected = SyntaxNode::Scope(vec![SyntaxNode::VarDecl(vec![SyntaxNode::Var(
        id("x"),
        Box::new(SyntaxNode::Type(id("int"))),
    )])]);
    assert_eq!(ast, expected);
}

#[test]
fn parse_missing_semicolon() {
    let tokens = tokenize("let int x = 5").unwrap();
    match parse(&tokens) {
        Err(Error::Expected(v, found)) => {
            assert_eq!(v, vec![Token::SemiColon]);
            assert_eq!(found, Token::EOF);
        },
        other => panic!("unexpected {:?}", other),
    }
}

#[test]
fn parse_unknown_instruction_reports_furthest_failure() {
    let tokens = tokenize("let int = 5;").unwrap();
    match parse(&tokens) {
        Err(Error::ExpectedIdentifier(found)) => assert_eq!(found, Token::Equal),
        other => panic!("unexpected {:?}", other),
    }
}

#[test]
fn parse_if_else_if() {
    let tokens = vec![
        Token::If,
        id("a"),
        Token::OpenCurlyBrackets,
        Token::CloseCurlyBrackets,
        Token::Else,
        Token::If,
        id("b"),
        Token::OpenCurlyBrackets,
        Token::CloseCurlyBrackets,
        Token::EOF,
    ];
    let ast = parse(&tokens).unwrap();
    let expected = SyntaxNode::Scope(vec![SyntaxNode::If(vec![
        lit(id("a")),
        SyntaxNode::Scope(vec![]),
        SyntaxNode::Else(Box::new(SyntaxNode::Scope(vec![SyntaxNode::If(vec![
            lit(id("b")),
            SyntaxNode::Scope(vec![]),
        ])]))),
    ])]);
    assert_eq!(ast, expected);
}

fn while_tokens() -> Vec<Token> {
    vec![
        Token::While,
        id("c"),
        Token::EqualTo,
        Token::Uint(1),
        Token::OpenCurlyBrackets,
        id("c"),
        Token::Inc,
        Token::SemiColon,
        Token::CloseCurlyBrackets,
    ]
}

fn while_node() -> SyntaxNode {
    SyntaxNode::While(vec![
        SyntaxNode::Expr(Token::EqualTo, vec![lit(id("c")), lit(Token::Uint(1))]),
        SyntaxNode::Scope(vec![SyntaxNode::VarModif(id("c"), Token::Plus, Box::new(lit(Token::Int(1))))]),
    ])
}

#[test]
fn parse_while_loop_with_increment() {
    let mut tokens = while_tokens();
    tokens.push(Token::EOF);
    assert_eq!(parse(&tokens).unwrap(), SyntaxNode::Scope(vec![while_node()]));
}

#[test]
fn parse_later_statement_form_replaces_earlier_success() {
    // The statement forms are tried one after the other on the same
    // tokens: a `while` right after an `if` is read by the same attempt
    // and takes its place.
    let mut tokens = vec![Token::If, id("a"), Token::OpenCurlyBrackets, Token::CloseCurlyBrackets];
    tokens.extend(while_tokens());
    tokens.push(Token::EOF);
    assert_eq!(parse(&tokens).unwrap(), SyntaxNode::Scope(vec![while_node()]));
}

#[test]
fn parse_traditional_for() {
    let tokens = vec![
        Token::For,
        Token::Let,
        id("int"),
        id("i"),
        Token::Equal,
        Token::Uint(0),
        Token::Comma,
        id("i"),
        Token::LessThan,
        Token::Uint(3),
        Token::Comma,
        id("i"),
        Token::Dec,
        Token::OpenCurlyBrackets,
        Token::CloseCurlyBrackets,
        Token::EOF,
    ];
    let ast = parse(&tokens).unwrap();
    let expected = SyntaxNode::Scope(vec![SyntaxNode::ForTraditionnal(vec![
        SyntaxNode::VarDecl(vec![
            SyntaxNode::Var(id("i"), Box::new(SyntaxNode::Type(id("int")))),
            lit(Token::Uint(0)),
        ]),
        SyntaxNode::Expr(Token::LessThan, vec![lit(id("i")), lit(Token::Uint(3))]),
        SyntaxNode::VarModif(id("i"), Token::Plus, Box::new(lit(Token::Int(-1)))),
        SyntaxNode::Scope(vec![]),
    ])]);
    assert_eq!(ast, expected);
}

#[test]
fn parse_modern_for_and_cast() {
    let tokens = vec![
        Token::For,
        id("int"),
        id("v"),
        Token::In,
        id("xs"),
        Token::OpenCurlyBrackets,
        Token::Const,
        id("float"),
        id("f"),
        Token::Equal,
        id("v"),
        Token::As,
        id("float"),
        Token::SemiColon,
        Token::CloseCurlyBrackets,
        Token::EOF,
    ];
    let ast = parse(&tokens).unwrap();
    let expected = SyntaxNode::Scope(vec![SyntaxNode::ForModern(vec![
        SyntaxNode::ForVars(vec![SyntaxNode::Var(id("v"), Box::new(SyntaxNode::Type(id("int"))))]),
        SyntaxNode::ForIterators(vec![id("xs")]),
        SyntaxNode::Scope(vec![SyntaxNode::ConstDecl(vec![
            SyntaxNode::Var(id("f"), Box::new(SyntaxNode::Type(id("float")))),
            SyntaxNode::ExprCast(vec![SyntaxNode::Type(id("float")), lit(id("v"))]),
        ])]),
    ])]);
    assert_eq!(ast, expected);
}

#[test]
fn parse_empty_token_list() {
    let tokens: Vec<Token> = vec![];
    assert_eq!(parse(&tokens).unwrap(), SyntaxNode::Scope(vec![]));
}

#[test]
fn parse_checked_reports_unfinished_header() {
    let tokens = vec![Token::OpenSqrBrackets];
    assert!(parse_checked(&tokens).is_none());
}

#[test]
fn binding_powers() {
    assert_eq!(get_binding_power(&Token::Plus).unwrap(), (10, 11));
    assert_eq!(get_binding_power(&Token::Times).unwrap(), (20, 21));
    assert_eq!(get_binding_power(&Token::BitwiseAnd).unwrap(), (50, 51));
    assert_eq!(get_binding_power(&Token::EqualTo).unwrap(), (0, 1));
    match get_binding_power(&Token::Comma) {
        Err(Error::NotAnOperator(t)) => assert_eq!(t, Token::Comma),
        other => panic!("unexpected {:?}", other),
    }
}

#[test]
fn parse_declaration_without_expression() {
    let tokens = tokenize("let int x = ;").unwrap();
    match parse(&tokens) {
        Err(Error::ExpectedExpr(found)) => assert_eq!(found, Token::SemiColon),
        other => panic!("unexpected {:?}", other),
    }
}
