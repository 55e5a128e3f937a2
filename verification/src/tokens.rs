//! Tokens produced by the scanner, and their mathematical models.
//!
//! A `Token` records the shape of the lexeme (`TokenType`), the exact
//! source text consumed for it, and the line/column of the position
//! directly *after* the lexeme was fully consumed.

use vstd::prelude::*;

verus! {

/// The shape of a token: keywords, punctuation, literals, and a terminal
/// `Eof`. `Identifier` and `Number` carry their raw text so the parser can
/// re-derive names and numeric values.
#[derive(Debug, PartialEq)]
pub enum TokenType {
    Let,
    If,
    For,
    While,
    Function,
    Identifier(String),
    Number(String),
    String(String),
    Char(char),
    Equals,
    EqualsEquals,
    Bang,
    BangEquals,
    Plus,
    Minus,
    Multiply,
    Divide,
    Modulo,
    LessThan,
    LessThanOrEqual,
    GreaterThan,
    GreaterThanOrEqual,
    Dot,
    Range,
    Comma,
    SemiColon,
    CurlyOpen,
    CurlyClose,
    BracketOpen,
    BracketClose,
    ParenthesesOpen,
    ParenthesesClose,
    Eof,
}

/// The model of a `TokenType`: the same tags, with string payloads viewed
/// as character sequences.
pub ghost enum TokenKind {
    Let,
    If,
    For,
    While,
    Function,
    Identifier { text: Seq<char> },
    Number { text: Seq<char> },
    StringLit { value: Seq<char> },
    CharLit { value: char },
    Equals,
    EqualsEquals,
    Bang,
    BangEquals,
    Plus,
    Minus,
    Multiply,
    Divide,
    Modulo,
    LessThan,
    LessThanOrEqual,
    GreaterThan,
    GreaterThanOrEqual,
    Dot,
    Range,
    Comma,
    SemiColon,
    CurlyOpen,
    CurlyClose,
    BracketOpen,
    BracketClose,
    ParenthesesOpen,
    ParenthesesClose,
    Eof,
}

impl View for TokenType {
    type V = TokenKind;

    open spec fn view(&self) -> TokenKind {
        match self {
            TokenType::Let => TokenKind::Let,
            TokenType::If => TokenKind::If,
            TokenType::For => TokenKind::For,
            TokenType::While => TokenKind::While,
            TokenType::Function => TokenKind::Function,
            TokenType::Identifier(s) => TokenKind::Identifier { text: s@ },
            TokenType::Number(s) => TokenKind::Number { text: s@ },
            TokenType::String(s) => TokenKind::StringLit { value: s@ },
            TokenType::Char(c) => TokenKind::CharLit { value: *c },
            TokenType::Equals => TokenKind::Equals,
            TokenType::EqualsEquals => TokenKind::EqualsEquals,
            TokenType::Bang => TokenKind::Bang,
            TokenType::BangEquals => TokenKind::BangEquals,
            TokenType::Plus => TokenKind::Plus,
            TokenType::Minus => TokenKind::Minus,
            TokenType::Multiply => TokenKind::Multiply,
            TokenType::Divide => TokenKind::Divide,
            TokenType::Modulo => TokenKind::Modulo,
            TokenType::LessThan => TokenKind::LessThan,
            TokenType::LessThanOrEqual => TokenKind::LessThanOrEqual,
            TokenType::GreaterThan => TokenKind::GreaterThan,
            TokenType::GreaterThanOrEqual => TokenKind::GreaterThanOrEqual,
            TokenType::Dot => TokenKind::Dot,
            TokenType::Range => TokenKind::Range,
            TokenType::Comma => TokenKind::Comma,
            TokenType::SemiColon => TokenKind::SemiColon,
            TokenType::CurlyOpen => TokenKind::CurlyOpen,
            TokenType::CurlyClose => TokenKind::CurlyClose,
            TokenType::BracketOpen => TokenKind::BracketOpen,
            TokenType::BracketClose => TokenKind::BracketClose,
            TokenType::ParenthesesOpen => TokenKind::ParenthesesOpen,
            TokenType::ParenthesesClose => TokenKind::ParenthesesClose,
            TokenType::Eof => TokenKind::Eof,
        }
    }
}

impl Clone for TokenType {
    fn clone(&self) -> (r: TokenType)
        ensures
            r == *self,
    {
        match self {
            TokenType::Let => TokenType::Let,
            TokenType::If => TokenType::If,
            TokenType::For => TokenType::For,
            TokenType::While => TokenType::While,
            TokenType::Function => TokenType::Function,
            TokenType::Identifier(s) => TokenType::Identifier(s.clone()),
            TokenType::Number(s) => TokenType::Number(s.clone()),
            TokenType::String(s) => TokenType::String(s.clone()),
            TokenType::Char(c) => TokenType::Char(*c),
            TokenType::Equals => TokenType::Equals,
            TokenType::EqualsEquals => TokenType::EqualsEquals,
            TokenType::Bang => TokenType::Bang,
            TokenType::BangEquals => TokenType::BangEquals,
            TokenType::Plus => TokenType::Plus,
            TokenType::Minus => TokenType::Minus,
            TokenType::Multiply => TokenType::Multiply,
            TokenType::Divide => TokenType::Divide,
            TokenType::Modulo => TokenType::Modulo,
            TokenType::LessThan => TokenType::LessThan,
            TokenType::LessThanOrEqual => TokenType::LessThanOrEqual,
            TokenType::GreaterThan => TokenType::GreaterThan,
            TokenType::GreaterThanOrEqual => TokenType::GreaterThanOrEqual,
            TokenType::Dot => TokenType::Dot,
            TokenType::Range => TokenType::Range,
            TokenType::Comma => TokenType::Comma,
            TokenType::SemiColon => TokenType::SemiColon,
            TokenType::CurlyOpen => TokenType::CurlyOpen,
            TokenType::CurlyClose => TokenType::CurlyClose,
            TokenType::BracketOpen => TokenType::BracketOpen,
            TokenType::BracketClose => TokenType::BracketClose,
            TokenType::ParenthesesOpen => TokenType::ParenthesesOpen,
            TokenType::ParenthesesClose => TokenType::ParenthesesClose,
            TokenType::Eof => TokenType::Eof,
        }
    }
}

/// One token: its shape, the exact source text consumed to produce it, and
/// the line/column of the scanner's position after that text.
#[derive(Debug, PartialEq)]
pub struct Token {
    pub token_type: TokenType,
    pub lexeme: String,
    pub line: usize,
    pub column: usize,
}

/// The model of a `Token`.
pub ghost struct TokenModel {
    pub kind: TokenKind,
    pub lexeme: Seq<char>,
    pub line: nat,
    pub column: nat,
}

impl View for Token {
    type V = TokenModel;

    open spec fn view(&self) -> TokenModel {
        TokenModel {
            kind: self.token_type@,
            lexeme: self.lexeme@,
            line: self.line as nat,
            column: self.column as nat,
        }
    }
}

impl DeepView for Token {
    type V = TokenModel;

    open spec fn deep_view(&self) -> TokenModel {
        self@
    }
}

impl Clone for Token {
    fn clone(&self) -> (r: Token)
        ensures
            r == *self,
    {
        Token {
            token_type: self.token_type.clone(),
            lexeme: self.lexeme.clone(),
            line: self.line,
            column: self.column,
        }
    }
}

} // verus!
