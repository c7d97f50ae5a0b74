use vstd::prelude::*;

verus! {

/// The kind of a token, with its payload where it has one.
#[derive(Debug, Clone, PartialEq, Eq)]
pub enum TokenType {
    Number(i64),
    Identifier(String),
    StringLiteral(String),
    Plus,
    Minus,
    Star,
    Slash,
    LParen,
    RParen,
    Equal,
    EqualEqual,
    BangEqual,
    Greater,
    GreaterEqual,
    Less,
    LessEqual,
    Bang,
    Semicolon,
    EOF,
    Print,
    Function,
    Class,
    Let,
    LBrace,
    RBrace,
    Comma,
}

/// A token with the position (1-based line and column) where it starts.
#[derive(Debug, Clone)]
pub struct Token {
    pub token_type: TokenType,
    pub line: usize,
    pub column: usize,
}

impl TokenType {
    /// Whether this is a kind without payload.
    pub open spec fn is_unit(self) -> bool {
        !(self is Number || self is Identifier || self is StringLiteral)
    }

    /// Whether `t` is this kind, which has no payload.
    pub fn same_kind(&self, t: &TokenType) -> (r: bool)
        requires
            self.is_unit(),
        ensures
            r == (*t == *self),
    {
        match self {
            TokenType::Plus => matches!(t, TokenType::Plus),
            TokenType::Minus => matches!(t, TokenType::Minus),
            TokenType::Star => matches!(t, TokenType::Star),
            TokenType::Slash => matches!(t, TokenType::Slash),
            TokenType::LParen => matches!(t, TokenType::LParen),
            TokenType::RParen => matches!(t, TokenType::RParen),
            TokenType::Equal => matches!(t, TokenType::Equal),
            TokenType::EqualEqual => matches!(t, TokenType::EqualEqual),
            TokenType::BangEqual => matches!(t, TokenType::BangEqual),
            TokenType::Greater => matches!(t, TokenType::Greater),
            TokenType::GreaterEqual => matches!(t, TokenType::GreaterEqual),
            TokenType::Less => matches!(t, TokenType::Less),
            TokenType::LessEqual => matches!(t, TokenType::LessEqual),
            TokenType::Bang => matches!(t, TokenType::Bang),
            TokenType::Semicolon => matches!(t, TokenType::Semicolon),
            TokenType::EOF => matches!(t, TokenType::EOF),
            TokenType::Print => matches!(t, TokenType::Print),
            TokenType::Function => matches!(t, TokenType::Function),
            TokenType::Class => matches!(t, TokenType::Class),
            TokenType::Let => matches!(t, TokenType::Let),
            TokenType::LBrace => matches!(t, TokenType::LBrace),
            TokenType::RBrace => matches!(t, TokenType::RBrace),
            TokenType::Comma => matches!(t, TokenType::Comma),
            _ => false,
        }
    }

    /// A copy of this token kind.
    pub fn duplicate(&self) -> (r: TokenType)
        ensures
            r == *self,
    {
        match self {
            TokenType::Number(n) => TokenType::Number(*n),
            TokenType::Identifier(s) => TokenType::Identifier(s.clone()),
            TokenType::StringLiteral(s) => TokenType::StringLiteral(s.clone()),
            TokenType::Plus => TokenType::Plus,
            TokenType::Minus => TokenType::Minus,
            TokenType::Star => TokenType::Star,
            TokenType::Slash => TokenType::Slash,
            TokenType::LParen => TokenType::LParen,
            TokenType::RParen => TokenType::RParen,
            TokenType::Equal => TokenType::Equal,
            TokenType::EqualEqual => TokenType::EqualEqual,
            TokenType::BangEqual => TokenType::BangEqual,
            TokenType::Greater => TokenType::Greater,
            TokenType::GreaterEqual => TokenType::GreaterEqual,
            TokenType::Less => TokenType::Less,
            TokenType::LessEqual => TokenType::LessEqual,
            TokenType::Bang => TokenType::Bang,
            TokenType::Semicolon => TokenType::Semicolon,
            TokenType::EOF => TokenType::EOF,
            TokenType::Print => TokenType::Print,
            TokenType::Function => TokenType::Function,
            TokenType::Class => TokenType::Class,
            TokenType::Let => TokenType::Let,
            TokenType::LBrace => TokenType::LBrace,
            TokenType::RBrace => TokenType::RBrace,
            TokenType::Comma => TokenType::Comma,
        }
    }
}

} // verus!
