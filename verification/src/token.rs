//! Tokens of the source language, as far as the expression and `for` loop
//! grammar reaches.

use vstd::prelude::*;

verus! {

/// A reserved word.
#[derive(Clone, Copy, PartialEq, Eq, Structural, Debug)]
pub enum Keyword {
    For,
    In,
}

/// One lexed token.  The token stream a lexer produces always ends with a
/// single `EndOfInput`.
#[derive(Clone, PartialEq, Eq, Debug)]
pub enum Token {
    Ident(String),
    Int(u128),
    Keyword(Keyword),
    Plus,
    Minus,
    Star,
    Slash,
    Ampersand,
    Caret,
    Pipe,
    Assign,
    Equal,
    NotEqual,
    Less,
    LessEqual,
    Greater,
    GreaterEqual,
    DoubleDot,
    Dot,
    LeftBrace,
    RightBrace,
    LeftParen,
    RightParen,
    Semicolon,
    Comma,
    Unknown(char),
    EndOfInput,
}

/// Specification-level mirror of [`Token`].
pub ghost enum TokenV {
    Ident(Seq<char>),
    Int(u128),
    Keyword(Keyword),
    Plus,
    Minus,
    Star,
    Slash,
    Ampersand,
    Caret,
    Pipe,
    Assign,
    Equal,
    NotEqual,
    Less,
    LessEqual,
    Greater,
    GreaterEqual,
    DoubleDot,
    Dot,
    LeftBrace,
    RightBrace,
    LeftParen,
    RightParen,
    Semicolon,
    Comma,
    Unknown(char),
    EndOfInput,
}

impl View for Token {
    type V = TokenV;

    open spec fn view(&self) -> TokenV {
        match self {
            Token::Ident(s) => TokenV::Ident(s@),
            Token::Int(v) => TokenV::Int(*v),
            Token::Keyword(k) => TokenV::Keyword(*k),
            Token::Plus => TokenV::Plus,
            Token::Minus => TokenV::Minus,
            Token::Star => TokenV::Star,
            Token::Slash => TokenV::Slash,
            Token::Ampersand => TokenV::Ampersand,
            Token::Caret => TokenV::Caret,
            Token::Pipe => TokenV::Pipe,
            Token::Assign => TokenV::Assign,
            Token::Equal => TokenV::Equal,
            Token::NotEqual => TokenV::NotEqual,
            Token::Less => TokenV::Less,
            Token::LessEqual => TokenV::LessEqual,
            Token::Greater => TokenV::Greater,
            Token::GreaterEqual => TokenV::GreaterEqual,
            Token::DoubleDot => TokenV::DoubleDot,
            Token::Dot => TokenV::Dot,
            Token::LeftBrace => TokenV::LeftBrace,
            Token::RightBrace => TokenV::RightBrace,
            Token::LeftParen => TokenV::LeftParen,
            Token::RightParen => TokenV::RightParen,
            Token::Semicolon => TokenV::Semicolon,
            Token::Comma => TokenV::Comma,
            Token::Unknown(c) => TokenV::Unknown(*c),
            Token::EndOfInput => TokenV::EndOfInput,
        }
    }
}

/// The kind of a token, payload disregarded, as far as the parser asks.
#[derive(Clone, Copy, PartialEq, Eq, Structural, Debug)]
pub enum TokenKind {
    Ident,
    Int,
    Other,
}

/// See [`TokenKind`].
pub open spec fn kind_spec(t: TokenV) -> TokenKind {
    match t {
        TokenV::Ident(_) => TokenKind::Ident,
        TokenV::Int(_) => TokenKind::Int,
        _ => TokenKind::Other,
    }
}

impl Token {
    /// The kind of this token.
    pub fn kind(&self) -> (r: TokenKind)
        ensures
            r == kind_spec(self@),
    {
        match self {
            Token::Ident(_) => TokenKind::Ident,
            Token::Int(_) => TokenKind::Int,
            _ => TokenKind::Other,
        }
    }

    /// Structural copy of a token.
    pub fn deep_clone(&self) -> (r: Token)
        ensures
            r@ == self@,
    {
        match self {
            Token::Ident(s) => Token::Ident(s.clone()),
            Token::Int(v) => Token::Int(*v),
            Token::Keyword(k) => Token::Keyword(*k),
            Token::Plus => Token::Plus,
            Token::Minus => Token::Minus,
            Token::Star => Token::Star,
            Token::Slash => Token::Slash,
            Token::Ampersand => Token::Ampersand,
            Token::Caret => Token::Caret,
            Token::Pipe => Token::Pipe,
            Token::Assign => Token::Assign,
            Token::Equal => Token::Equal,
            Token::NotEqual => Token::NotEqual,
            Token::Less => Token::Less,
            Token::LessEqual => Token::LessEqual,
            Token::Greater => Token::Greater,
            Token::GreaterEqual => Token::GreaterEqual,
            Token::DoubleDot => Token::DoubleDot,
            Token::Dot => Token::Dot,
            Token::LeftBrace => Token::LeftBrace,
            Token::RightBrace => Token::RightBrace,
            Token::LeftParen => Token::LeftParen,
            Token::RightParen => Token::RightParen,
            Token::Semicolon => Token::Semicolon,
            Token::Comma => Token::Comma,
            Token::Unknown(c) => Token::Unknown(*c),
            Token::EndOfInput => Token::EndOfInput,
        }
    }

    /// Whether two tokens are the very same, payload included.
    pub fn same_as(&self, other: &Token) -> (r: bool)
        ensures
            r == (self@ == other@),
    {
        match (self, other) {
            (Token::Ident(a), Token::Ident(b)) => crate::strcmp::str_eq(a.as_str(), b.as_str()),
            (Token::Int(a), Token::Int(b)) => a == b,
            (Token::Keyword(a), Token::Keyword(b)) => a == b,
            (Token::Plus, Token::Plus) => true,
            (Token::Minus, Token::Minus) => true,
            (Token::Star, Token::Star) => true,
            (Token::Slash, Token::Slash) => true,
            (Token::Ampersand, Token::Ampersand) => true,
            (Token::Caret, Token::Caret) => true,
            (Token::Pipe, Token::Pipe) => true,
            (Token::Assign, Token::Assign) => true,
            (Token::Equal, Token::Equal) => true,
            (Token::NotEqual, Token::NotEqual) => true,
            (Token::Less, Token::Less) => true,
            (Token::LessEqual, Token::LessEqual) => true,
            (Token::Greater, Token::Greater) => true,
            (Token::GreaterEqual, Token::GreaterEqual) => true,
            (Token::DoubleDot, Token::DoubleDot) => true,
            (Token::Dot, Token::Dot) => true,
            (Token::LeftBrace, Token::LeftBrace) => true,
            (Token::RightBrace, Token::RightBrace) => true,
            (Token::LeftParen, Token::LeftParen) => true,
            (Token::RightParen, Token::RightParen) => true,
            (Token::Semicolon, Token::Semicolon) => true,
            (Token::Comma, Token::Comma) => true,
            (Token::Unknown(a), Token::Unknown(b)) => a == b,
            (Token::EndOfInput, Token::EndOfInput) => true,
            _ => false,
        }
    }
}

} // verus!
