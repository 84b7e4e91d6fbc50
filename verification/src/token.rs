//! The token model: lexical categories produced by the lexer.

use vstd::prelude::*;
use vstd::string::StringExecFns;

verus! {

/// A classified lexeme. `Ident` and `Int` carry the literal text; all other
/// variants are payload-free markers. The lexer recognizes a larger language
/// than the parser consumes: comparison operators, braces and several
/// keywords are reserved for a bigger language and never reach the evaluator.
#[derive(Debug, PartialEq, Clone)]
pub enum Token {
    Ident(String),
    Int(String),
    Illegal,
    Eof,
    Assign,
    Bang,
    Dash,
    ForwardSlash,
    Asterisk,
    Equal,
    NotEqual,
    LessThan,
    GreaterThan,
    Plus,
    Comma,
    Semicolon,
    Lparen,
    Rparen,
    LSquirly,
    RSquirly,
    Function,
    Let,
    If,
    Else,
    Return,
    True,
    False,
    Print,
}

/// The mathematical model of a token: literal text is a sequence of
/// characters instead of an executable `String`.
pub enum TokenModel {
    Ident(Seq<char>),
    Int(Seq<char>),
    Illegal,
    Eof,
    Assign,
    Bang,
    Dash,
    ForwardSlash,
    Asterisk,
    Equal,
    NotEqual,
    LessThan,
    GreaterThan,
    Plus,
    Comma,
    Semicolon,
    Lparen,
    Rparen,
    LSquirly,
    RSquirly,
    Function,
    Let,
    If,
    Else,
    Return,
    True,
    False,
    Print,
}

impl View for Token {
    type V = TokenModel;

    open spec fn view(&self) -> TokenModel {
        match self {
            Token::Ident(s) => TokenModel::Ident(s@),
            Token::Int(s) => TokenModel::Int(s@),
            Token::Illegal => TokenModel::Illegal,
            Token::Eof => TokenModel::Eof,
            Token::Assign => TokenModel::Assign,
            Token::Bang => TokenModel::Bang,
            Token::Dash => TokenModel::Dash,
            Token::ForwardSlash => TokenModel::ForwardSlash,
            Token::Asterisk => TokenModel::Asterisk,
            Token::Equal => TokenModel::Equal,
            Token::NotEqual => TokenModel::NotEqual,
            Token::LessThan => TokenModel::LessThan,
            Token::GreaterThan => TokenModel::GreaterThan,
            Token::Plus => TokenModel::Plus,
            Token::Comma => TokenModel::Comma,
            Token::Semicolon => TokenModel::Semicolon,
            Token::Lparen => TokenModel::Lparen,
            Token::Rparen => TokenModel::Rparen,
            Token::LSquirly => TokenModel::LSquirly,
            Token::RSquirly => TokenModel::RSquirly,
            Token::Function => TokenModel::Function,
            Token::Let => TokenModel::Let,
            Token::If => TokenModel::If,
            Token::Else => TokenModel::Else,
            Token::Return => TokenModel::Return,
            Token::True => TokenModel::True,
            Token::False => TokenModel::False,
            Token::Print => TokenModel::Print,
        }
    }
}

/// The view of a token list, token by token.
pub open spec fn tokens_view(ts: Seq<Token>) -> Seq<TokenModel> {
    ts.map_values(|t: Token| t@)
}

/// Which token an identifier lexeme stands for: one of the reserved keywords,
/// or a plain identifier carrying its text.
pub open spec fn spec_keyword_token(w: Seq<char>) -> TokenModel {
    if w == "let"@ {
        TokenModel::Let
    } else if w == "fn"@ {
        TokenModel::Function
    } else if w == "if"@ {
        TokenModel::If
    } else if w == "else"@ {
        TokenModel::Else
    } else if w == "return"@ {
        TokenModel::Return
    } else if w == "true"@ {
        TokenModel::True
    } else if w == "false"@ {
        TokenModel::False
    } else if w == "print"@ {
        TokenModel::Print
    } else {
        TokenModel::Ident(w)
    }
}

/// The display text of a token: the variant's name, with the literal text
/// of `Ident` and `Int` in parentheses.
pub open spec fn spec_token_text(t: TokenModel) -> Seq<char> {
    match t {
        TokenModel::Ident(s) => "Ident("@ + s + ")"@,
        TokenModel::Int(s) => "Int("@ + s + ")"@,
        TokenModel::Illegal => "Illegal"@,
        TokenModel::Eof => "Eof"@,
        TokenModel::Assign => "Assign"@,
        TokenModel::Bang => "Bang"@,
        TokenModel::Dash => "Dash"@,
        TokenModel::ForwardSlash => "ForwardSlash"@,
        TokenModel::Asterisk => "Asterisk"@,
        TokenModel::Equal => "Equal"@,
        TokenModel::NotEqual => "NotEqual"@,
        TokenModel::LessThan => "LessThan"@,
        TokenModel::GreaterThan => "GreaterThan"@,
        TokenModel::Plus => "Plus"@,
        TokenModel::Comma => "Comma"@,
        TokenModel::Semicolon => "Semicolon"@,
        TokenModel::Lparen => "Lparen"@,
        TokenModel::Rparen => "Rparen"@,
        TokenModel::LSquirly => "LSquirly"@,
        TokenModel::RSquirly => "RSquirly"@,
        TokenModel::Function => "Function"@,
        TokenModel::Let => "Let"@,
        TokenModel::If => "If"@,
        TokenModel::Else => "Else"@,
        TokenModel::Return => "Return"@,
        TokenModel::True => "True"@,
        TokenModel::False => "False"@,
        TokenModel::Print => "Print"@,
    }
}

impl Token {
    /// The display text of this token, for presenting token streams.
    pub fn display_string(&self) -> (r: String)
        ensures
            r@ == spec_token_text(self@),
    {
        match self {
            Token::Ident(x) => String::from_str("Ident(").concat(x.as_str()).concat(")"),
            Token::Int(x) => String::from_str("Int(").concat(x.as_str()).concat(")"),
            Token::Illegal => String::from_str("Illegal"),
            Token::Eof => String::from_str("Eof"),
            Token::Assign => String::from_str("Assign"),
            Token::Bang => String::from_str("Bang"),
            Token::Dash => String::from_str("Dash"),
            Token::ForwardSlash => String::from_str("ForwardSlash"),
            Token::Asterisk => String::from_str("Asterisk"),
            Token::Equal => String::from_str("Equal"),
            Token::NotEqual => String::from_str("NotEqual"),
            Token::LessThan => String::from_str("LessThan"),
            Token::GreaterThan => String::from_str("GreaterThan"),
            Token::Plus => String::from_str("Plus"),
            Token::Comma => String::from_str("Comma"),
            Token::Semicolon => String::from_str("Semicolon"),
            Token::Lparen => String::from_str("Lparen"),
            Token::Rparen => String::from_str("Rparen"),
            Token::LSquirly => String::from_str("LSquirly"),
            Token::RSquirly => String::from_str("RSquirly"),
            Token::Function => String::from_str("Function"),
            Token::Let => String::from_str("Let"),
            Token::If => String::from_str("If"),
            Token::Else => String::from_str("Else"),
            Token::Return => String::from_str("Return"),
            Token::True => String::from_str("True"),
            Token::False => String::from_str("False"),
            Token::Print => String::from_str("Print"),
        }
    }
}

/// Classify a completed identifier lexeme as a keyword token or `Ident`.
pub fn keyword_or_ident(word: String) -> (t: Token)
    ensures
        t@ == spec_keyword_token(word@),
{
    if word == String::from_str("let") {
        Token::Let
    } else if word == String::from_str("fn") {
        Token::Function
    } else if word == String::from_str("if") {
        Token::If
    } else if word == String::from_str("else") {
        Token::Else
    } else if word == String::from_str("return") {
        Token::Return
    } else if word == String::from_str("true") {
        Token::True
    } else if word == String::from_str("false") {
        Token::False
    } else if word == String::from_str("print") {
        Token::Print
    } else {
        Token::Ident(word)
    }
}

} // verus!
