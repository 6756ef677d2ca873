use vstd::prelude::*;

verus! {

/// One lexical unit of the language.
#[derive(Debug, PartialEq, Eq)]
pub enum Token {
    If,
    Else,
    IntLiteral(i64),
    Identifier(String),
    Plus,
    Minus,
    Multiply,
    Divide,
    Assign,
    Equal,
    NotEqual,
    LessThan,
    GreaterThan,
    LessThanOrEqual,
    GreaterThanOrEqual,
    LeftParen,
    RightParen,
    LeftBrace,
    RightBrace,
    Semicolon,
    Comma,
    /// End of input; never part of a finished token sequence.
    EOF,
}

/// The mathematical value of a token: an identifier's text is a sequence
/// of characters.
pub enum Lexeme {
    If,
    Else,
    IntLiteral(i64),
    Identifier(Seq<char>),
    Plus,
    Minus,
    Multiply,
    Divide,
    Assign,
    Equal,
    NotEqual,
    LessThan,
    GreaterThan,
    LessThanOrEqual,
    GreaterThanOrEqual,
    LeftParen,
    RightParen,
    LeftBrace,
    RightBrace,
    Semicolon,
    Comma,
    EOF,
}

impl View for Token {
    type V = Lexeme;

    open spec fn view(&self) -> Lexeme {
        match self {
            Token::If => Lexeme::If,
            Token::Else => Lexeme::Else,
            Token::IntLiteral(n) => Lexeme::IntLiteral(*n),
            Token::Identifier(s) => Lexeme::Identifier(s@),
            Token::Plus => Lexeme::Plus,
            Token::Minus => Lexeme::Minus,
            Token::Multiply => Lexeme::Multiply,
            Token::Divide => Lexeme::Divide,
            Token::Assign => Lexeme::Assign,
            Token::Equal => Lexeme::Equal,
            Token::NotEqual => Lexeme::NotEqual,
            Token::LessThan => Lexeme::LessThan,
            Token::GreaterThan => Lexeme::GreaterThan,
            Token::LessThanOrEqual => Lexeme::LessThanOrEqual,
            Token::GreaterThanOrEqual => Lexeme::GreaterThanOrEqual,
            Token::LeftParen => Lexeme::LeftParen,
            Token::RightParen => Lexeme::RightParen,
            Token::LeftBrace => Lexeme::LeftBrace,
            Token::RightBrace => Lexeme::RightBrace,
            Token::Semicolon => Lexeme::Semicolon,
            Token::Comma => Lexeme::Comma,
            Token::EOF => Lexeme::EOF,
        }
    }
}

} // verus!
