use tinylang::ast::BinOp;
use tinylang::ast::Expr;
use tinylang::ast::Stmt;
use tinylang::lexer::tokenize;
use tinylang::parser::ParseError;
use tinylang::parser::Parser;
use tinylang::parser::parse_int_literal;
use tinylang::token::Token;

fn parse_source(src: &str) -> Result<Vec<Stmt>, ParseError> {
    let tokens = tokenize(src).unwrap();
    let mut parser = Parser::new(tokens);
    parser.parse()
}

#[test]
fn parse_let_statement_shape() {
    let stmts = parse_source("let x = 5;").unwrap();
    assert_eq!(stmts, vec![Stmt::Let(String::from("x"), Expr::Int(5))]);
}

#[test]
fn parse_print_statement_shape() {
    let stmts = parse_source("print(x);").unwrap();
    assert_eq!(stmts, vec![Stmt::Print(Expr::Ident(String::from("x")))]);
}

#[test]
fn parse_expression_statement_shape() {
    let stmts = parse_source("a + 2;").unwrap();
    assert_eq!(
        stmts,
        vec![Stmt::Expr(Expr::Infix(
            Box::new(Expr::Ident(String::from("a"))),
            BinOp::Plus,
            Box::new(Expr::Int(2)),
        ))]
    );
}

#[test]
fn parse_is_left_associative_without_precedence() {
    let stmts = parse_source("1 + 2 * 3;").unwrap();
    assert_eq!(
        stmts,
        vec![Stmt::Expr(Expr::Infix(
            Box::new(Expr::Infix(
                Box::new(Expr::Int(1)),
                BinOp::Plus,
                Box::new(Expr::Int(2)),
            )),
            BinOp::Times,
            Box::new(Expr::Int(3)),
        ))]
    );
}

#[test]
fn parse_semicolon_is_optional() {
    let with = parse_source("let x = 1;").unwrap();
    let without = parse_source("let x = 1").unwrap();
    assert_eq!(with, without);
}

#[test]
fn parse_several_statements() {
    let stmts = parse_source("let x = 1; let y = x + 2; print(y);").unwrap();
    assert_eq!(stmts.len(), 3);
    assert_eq!(stmts[0], Stmt::Let(String::from("x"), Expr::Int(1)));
}

#[test]
fn parse_let_expects_identifier() {
    assert_eq!(parse_source("let 5 = 3;"), Err(ParseError::ExpectedIdentifier));
}

#[test]
fn parse_let_expects_assign() {
    assert_eq!(parse_source("let x 5;"), Err(ParseError::ExpectedAssign));
}

#[test]
fn parse_print_expects_lparen() {
    assert_eq!(parse_source("print 5;"), Err(ParseError::ExpectedLparen));
}

#[test]
fn parse_print_expects_rparen() {
    assert_eq!(parse_source("print(5"), Err(ParseError::ExpectedRparen));
}

#[test]
fn parse_rejects_unexpected_primary() {
    assert_eq!(parse_source("+"), Err(ParseError::UnexpectedToken));
}

#[test]
fn parse_rejects_oversized_literal() {
    assert_eq!(
        parse_source("let x = 9223372036854775808;"),
        Err(ParseError::InvalidIntegerLiteral)
    );
}

#[test]
fn parse_largest_literal() {
    let stmts = parse_source("let x = 9223372036854775807;").unwrap();
    assert_eq!(
        stmts,
        vec![Stmt::Let(String::from("x"), Expr::Int(9223372036854775807))]
    );
}

#[test]
fn parse_int_literal_values() {
    assert_eq!(parse_int_literal("0"), Some(0));
    assert_eq!(parse_int_literal("42"), Some(42));
    assert_eq!(parse_int_literal("9223372036854775807"), Some(i64::MAX));
    assert_eq!(parse_int_literal("9223372036854775808"), None);
    assert_eq!(parse_int_literal("99999999999999999999999"), None);
    assert_eq!(parse_int_literal(""), None);
    assert_eq!(parse_int_literal("12a"), None);
}

#[test]
fn parse_print_semicolon_is_optional() {
    let with = parse_source("print(1);").unwrap();
    let without = parse_source("print(1)").unwrap();
    assert_eq!(with, without);
    assert_eq!(with, vec![Stmt::Print(Expr::Int(1))]);
}

#[test]
fn parse_print_does_not_swallow_the_next_statement() {
    let stmts = parse_source("print(1) print(2)").unwrap();
    assert_eq!(
        stmts,
        vec![Stmt::Print(Expr::Int(1)), Stmt::Print(Expr::Int(2))]
    );
    let stmts = parse_source("print(1) x").unwrap();
    assert_eq!(
        stmts,
        vec![
            Stmt::Print(Expr::Int(1)),
            Stmt::Expr(Expr::Ident(String::from("x"))),
        ]
    );
}

#[test]
fn parse_rejects_double_semicolon_after_print() {
    assert_eq!(parse_source("print(1);;"), Err(ParseError::UnexpectedToken));
}

#[test]
fn parse_hand_built_token_stream() {
    let tokens = vec![
        Token::Let,
        Token::Ident(String::from("n")),
        Token::Assign,
        Token::Int(String::from("7")),
        Token::Semicolon,
        Token::Eof,
    ];
    let mut parser = Parser::new(tokens);
    let stmts = parser.parse().unwrap();
    assert_eq!(stmts, vec![Stmt::Let(String::from("n"), Expr::Int(7))]);
}

#[test]
fn parse_empty_token_stream() {
    let mut parser = Parser::new(vec![Token::Eof]);
    assert_eq!(parser.parse().unwrap(), vec![]);
    let mut parser = Parser::new(vec![]);
    assert_eq!(parser.parse().unwrap(), vec![]);
}
