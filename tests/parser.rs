use script_lang::ast::{Ast, BinaryOperator, ComparisonOperator, Node};
use script_lang::lexer::TokenKind;
use script_lang::parser::{parse, ParseError, Parser};

fn expect_unexpected(src: &str, expected: Vec<TokenKind>, found: TokenKind) {
    match parse(src.to_string()) {
        Err(ParseError::Unexpected { expected: e, found: f }) => {
            assert_eq!(e, expected);
            assert_eq!(f, found);
        }
        other => panic!("unexpected result for {src:?}: {other:?}"),
    }
}

fn is_variable(n: &Node, name: &str) -> bool {
    matches!(n, Node::Variable { name: v } if v == name)
}

fn is_int(n: &Node, value: i64) -> bool {
    matches!(n, Node::IntLiteral { value: v } if *v == value)
}

#[test]
fn declaration_parses() {
    let ast = Parser::new("let x = 5".to_string()).parse().unwrap();
    assert_eq!(ast.nodes.len(), 1);
    match &ast.nodes[0] {
        Node::Declaration { target, value } => {
            assert_eq!(target, "x");
            assert!(is_int(value, 5));
        }
        other => panic!("not a declaration: {other:?}"),
    }
}

#[test]
fn while_loop_parses() {
    let ast = parse("while x == 1 { x + 1 }".to_string()).unwrap();
    assert_eq!(ast.nodes.len(), 1);
    match &ast.nodes[0] {
        Node::While { condition, body } => {
            match condition.as_ref() {
                Node::ComparisonOp { lhs, rhs, op } => {
                    assert!(is_variable(lhs, "x"));
                    assert!(is_int(rhs, 1));
                    assert_eq!(*op, ComparisonOperator::Equal);
                }
                other => panic!("not a comparison: {other:?}"),
            }
            assert_eq!(body.len(), 1);
            match &body[0] {
                Node::BinaryOp { lhs, rhs, op } => {
                    assert!(is_variable(lhs, "x"));
                    assert!(is_int(rhs, 1));
                    assert_eq!(*op, BinaryOperator::Plus);
                }
                other => panic!("not a binary operation: {other:?}"),
            }
        }
        other => panic!("not a loop: {other:?}"),
    }
}

#[test]
fn missing_identifier_in_declaration() {
    expect_unexpected("let = 5", vec![TokenKind::Identifier], TokenKind::Eq);
}

#[test]
fn statements_after_a_loop_are_parsed() {
    let src = "let a = 1\nwhile a == 10 {\n  a + 1\n  2 - b\n}\nlet b = -0";
    // `-0` is not a numeral: the run starts with '-', so it is an identifier.
    expect_unexpected(src, vec![TokenKind::IntLiteral], TokenKind::Identifier);
    let ast = parse("let a = 1 while a == 10 { a + 1 2 - b } let b = 0".to_string()).unwrap();
    assert_eq!(ast.nodes.len(), 3);
    match &ast.nodes[1] {
        Node::While { body, .. } => {
            assert_eq!(body.len(), 2);
            match &body[1] {
                Node::BinaryOp { lhs, rhs, op } => {
                    assert!(is_int(lhs, 2));
                    assert!(is_variable(rhs, "b"));
                    assert_eq!(*op, BinaryOperator::Minus);
                }
                other => panic!("not a binary operation: {other:?}"),
            }
        }
        other => panic!("not a loop: {other:?}"),
    }
    assert!(matches!(&ast.nodes[2], Node::Declaration { target, value } if target == "b" && is_int(value, 0)));
}

#[test]
fn empty_loop_body() {
    let ast = parse("while 1 == 1 { }".to_string()).unwrap();
    match &ast.nodes[0] {
        Node::While { body, .. } => assert!(body.is_empty()),
        other => panic!("not a loop: {other:?}"),
    }
}

#[test]
fn empty_program() {
    let ast: Ast = parse("  \n ".to_string()).unwrap();
    assert!(ast.nodes.is_empty());
    assert!(Ast::new().nodes.is_empty());
}

#[test]
fn largest_literal_and_overflow() {
    let ast = parse("let m = 9223372036854775807".to_string()).unwrap();
    assert!(matches!(&ast.nodes[0], Node::Declaration { value, .. } if is_int(value, i64::MAX)));
    match parse("let m = 9223372036854775808".to_string()) {
        Err(ParseError::InvalidInteger { text }) => assert_eq!(text, "9223372036854775808"),
        other => panic!("expected an invalid integer: {other:?}"),
    }
}

#[test]
fn malformed_numeral_is_invalid_integer() {
    match parse("let x = 5x".to_string()) {
        Err(ParseError::InvalidInteger { text }) => assert_eq!(text, "5x"),
        other => panic!("expected an invalid integer: {other:?}"),
    }
    match parse("while x == 1 { x + 1a }".to_string()) {
        Err(ParseError::InvalidInteger { text }) => assert_eq!(text, "1a"),
        other => panic!("expected an invalid integer: {other:?}"),
    }
}

#[test]
fn leading_zeros_are_decimal() {
    let ast = parse("let x = 0042".to_string()).unwrap();
    assert!(matches!(&ast.nodes[0], Node::Declaration { value, .. } if is_int(value, 42)));
}

#[test]
fn unrecognised_top_level_statement() {
    expect_unexpected("x + 1", vec![TokenKind::Let, TokenKind::While], TokenKind::Identifier);
    expect_unexpected("let x = 1 }", vec![TokenKind::Let, TokenKind::While], TokenKind::RBrace);
}

#[test]
fn declaration_errors() {
    expect_unexpected("let x 5", vec![TokenKind::Eq], TokenKind::IntLiteral);
    expect_unexpected("let x = y", vec![TokenKind::IntLiteral], TokenKind::Identifier);
    expect_unexpected("let x =", vec![TokenKind::IntLiteral], TokenKind::Eof);
}

#[test]
fn condition_errors() {
    expect_unexpected("while x = 1 { }", vec![TokenKind::DoubleEq], TokenKind::Eq);
    expect_unexpected(
        "while { x == 1 }",
        vec![TokenKind::Identifier, TokenKind::IntLiteral],
        TokenKind::LBrace,
    );
    expect_unexpected("while x == 1 x + 1 }", vec![TokenKind::LBrace], TokenKind::Identifier);
}

#[test]
fn body_errors() {
    expect_unexpected("while x == 1 { x += 1 }", vec![TokenKind::Plus, TokenKind::Minus], TokenKind::PlusEq);
    expect_unexpected(
        "while x == 1 { let y = 1 }",
        vec![TokenKind::Identifier, TokenKind::IntLiteral],
        TokenKind::Let,
    );
    expect_unexpected(
        "while x == 1 { x + 1",
        vec![TokenKind::Identifier, TokenKind::IntLiteral],
        TokenKind::Eof,
    );
}
