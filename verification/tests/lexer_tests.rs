use tinylang::lexer::LexError;
use tinylang::lexer::Lexer;
use tinylang::lexer::tokenize;
use tinylang::token::Token;

#[test]
fn get_next_token() {
    let input = "=+(){},;";
    let mut lexer = Lexer::new(input.into());

    let tokens = vec![
        Token::Assign,
        Token::Plus,
        Token::Lparen,
        Token::Rparen,
        Token::LSquirly,
        Token::RSquirly,
        Token::Comma,
        Token::Semicolon,
    ];

    for token in tokens {
        let next_token = lexer.next_token().unwrap();
        println!("expected: {:?}, received {:?}", token, next_token);
        assert_eq!(token, next_token);
    }
}

#[test]
fn get_next_complete() {
    let input = r#"let five = 5;
        let ten = 10;
        let add = fn(x, y) {
            x + y;
        };
        let result = add(five, ten);
    !-/*5;
    5 < 10 > 5;
    if (5 < 10) {
        return true;
    } else {
        return false;
    }

    10 == 10;
    10 != 9;
    "#;

    let mut lex = Lexer::new(input.into());

    let tokens = vec![
        Token::Let,
        Token::Ident(String::from("five")),
        Token::Assign,
        Token::Int(String::from("5")),
        Token::Semicolon,
        Token::Let,
        Token::Ident(String::from("ten")),
        Token::Assign,
        Token::Int(String::from("10")),
        Token::Semicolon,
        Token::Let,
        Token::Ident(String::from("add")),
        Token::Assign,
        Token::Function,
        Token::Lparen,
        Token::Ident(String::from("x")),
        Token::Comma,
        Token::Ident(String::from("y")),
        Token::Rparen,
        Token::LSquirly,
        Token::Ident(String::from("x")),
        Token::Plus,
        Token::Ident(String::from("y")),
        Token::Semicolon,
        Token::RSquirly,
        Token::Semicolon,
        Token::Let,
        Token::Ident(String::from("result")),
        Token::Assign,
        Token::Ident(String::from("add")),
        Token::Lparen,
        Token::Ident(String::from("five")),
        Token::Comma,
        Token::Ident(String::from("ten")),
        Token::Rparen,
        Token::Semicolon,
        Token::Bang,
        Token::Dash,
        Token::ForwardSlash,
        Token::Asterisk,
        Token::Int(String::from("5")),
        Token::Semicolon,
        Token::Int(String::from("5")),
        Token::LessThan,
        Token::Int(String::from("10")),
        Token::GreaterThan,
        Token::Int(String::from("5")),
        Token::Semicolon,
        Token::If,
        Token::Lparen,
        Token::Int(String::from("5")),
        Token::LessThan,
        Token::Int(String::from("10")),
        Token::Rparen,
        Token::LSquirly,
        Token::Return,
        Token::True,
        Token::Semicolon,
        Token::RSquirly,
        Token::Else,
        Token::LSquirly,
        Token::Return,
        Token::False,
        Token::Semicolon,
        Token::RSquirly,
        Token::Int(String::from("10")),
        Token::Equal,
        Token::Int(String::from("10")),
        Token::Semicolon,
        Token::Int(String::from("10")),
        Token::NotEqual,
        Token::Int(String::from("9")),
        Token::Semicolon,
        Token::Eof,
    ];

    for token in tokens {
        let next_token = lex.next_token().unwrap();
        println!("expected: {:?}, received {:?}", token, next_token);
        assert_eq!(token, next_token);
    }
}

#[test]
fn test_empty_input() {
    let input = "";
    let mut lexer = Lexer::new(input.into());

    assert_eq!(lexer.next_token().unwrap(), Token::Eof);
}

#[test]
fn test_whitespace() {
    let input = "    \n\t\r";
    let mut lexer = Lexer::new(input.into());

    assert_eq!(lexer.next_token().unwrap(), Token::Eof);
}

#[test]
fn test_invalid_characters() {
    let input = "áç@#";
    let mut lexer = Lexer::new(input.into());

    let result = lexer.next_token();
    assert!(result.is_err());
}

#[test]
fn tokenize_punctuation_stream() {
    let tokens = tokenize("=+(){},;").unwrap();
    assert_eq!(
        tokens,
        vec![
            Token::Assign,
            Token::Plus,
            Token::Lparen,
            Token::Rparen,
            Token::LSquirly,
            Token::RSquirly,
            Token::Comma,
            Token::Semicolon,
            Token::Eof,
        ]
    );
}

#[test]
fn tokenize_empty_and_whitespace() {
    assert_eq!(tokenize("").unwrap(), vec![Token::Eof]);
    assert_eq!(tokenize("    \n\t\r").unwrap(), vec![Token::Eof]);
}

#[test]
fn tokenize_invalid_character_reported() {
    assert_eq!(tokenize("áç@#"), Err(LexError::InvalidChar('á')));
    assert_eq!(tokenize("x @ y"), Err(LexError::InvalidChar('@')));
}

#[test]
fn eof_is_terminal() {
    let mut lexer = Lexer::new("x".into());
    assert_eq!(lexer.next_token().unwrap(), Token::Ident(String::from("x")));
    assert_eq!(lexer.next_token().unwrap(), Token::Eof);
    assert_eq!(lexer.next_token().unwrap(), Token::Eof);
    assert_eq!(lexer.next_token().unwrap(), Token::Eof);
}

#[test]
fn keywords_and_identifiers() {
    let tokens = tokenize("let fn if else return true false print foo _bar x1").unwrap();
    assert_eq!(
        tokens,
        vec![
            Token::Let,
            Token::Function,
            Token::If,
            Token::Else,
            Token::Return,
            Token::True,
            Token::False,
            Token::Print,
            Token::Ident(String::from("foo")),
            Token::Ident(String::from("_bar")),
            Token::Ident(String::from("x1")),
            Token::Eof,
        ]
    );
}

#[test]
fn double_character_operators() {
    let tokens = tokenize("== != = !").unwrap();
    assert_eq!(
        tokens,
        vec![
            Token::Equal,
            Token::NotEqual,
            Token::Assign,
            Token::Bang,
            Token::Eof,
        ]
    );
}

#[test]
fn token_display_text() {
    assert_eq!(Token::Ident(String::from("x")).display_string(), "Ident(x)");
    assert_eq!(Token::Int(String::from("42")).display_string(), "Int(42)");
    assert_eq!(Token::LSquirly.display_string(), "LSquirly");
    assert_eq!(Token::Eof.display_string(), "Eof");
}
