//! Tokens produced by lexical analysis.
//!
//! A token is a kind together with the 1-based line and column of its first
//! character. The mathematical model of a token (`TokenV`) carries identifier
//! text as a sequence of characters and positions as unbounded integers.

use vstd::prelude::*;

verus! {

/// The closed set of token kinds of the source language.
#[derive(Debug, Clone, PartialEq)]
pub enum TokenKind {
    IntLiteral(i64),
    Identifier(String),
    Return,
    Function,
    IntType,
    Var,
    If,
    Else,
    While,
    Break,
    Continue,
    LeftParentheses,
    RightParentheses,
    LeftBrace,
    RightBrace,
    Semicolon,
    Comma,
    Plus,
    Minus,
    Star,
    Slash,
    Equal,
    DoubleEqual,
    NotEqual,
    LessThan,
    LessEqual,
    GreaterThan,
    GreaterEqual,
    Not,
    And,
    Or,
}

/// Mathematical model of a token kind: identifier text is a `Seq<char>`.
pub enum TokenKindV {
    IntLiteral(i64),
    Identifier(Seq<char>),
    Return,
    Function,
    IntType,
    Var,
    If,
    Else,
    While,
    Break,
    Continue,
    LeftParentheses,
    RightParentheses,
    LeftBrace,
    RightBrace,
    Semicolon,
    Comma,
    Plus,
    Minus,
    Star,
    Slash,
    Equal,
    DoubleEqual,
    NotEqual,
    LessThan,
    LessEqual,
    GreaterThan,
    GreaterEqual,
    Not,
    And,
    Or,
}

impl View for TokenKind {
    type V = TokenKindV;

    open spec fn view(&self) -> TokenKindV {
        match self {
            TokenKind::IntLiteral(v) => TokenKindV::IntLiteral(*v),
            TokenKind::Identifier(s) => TokenKindV::Identifier(s@),
            TokenKind::Return => TokenKindV::Return,
            TokenKind::Function => TokenKindV::Function,
            TokenKind::IntType => TokenKindV::IntType,
            TokenKind::Var => TokenKindV::Var,
            TokenKind::If => TokenKindV::If,
            TokenKind::Else => TokenKindV::Else,
            TokenKind::While => TokenKindV::While,
            TokenKind::Break => TokenKindV::Break,
            TokenKind::Continue => TokenKindV::Continue,
            TokenKind::LeftParentheses => TokenKindV::LeftParentheses,
            TokenKind::RightParentheses => TokenKindV::RightParentheses,
            TokenKind::LeftBrace => TokenKindV::LeftBrace,
            TokenKind::RightBrace => TokenKindV::RightBrace,
            TokenKind::Semicolon => TokenKindV::Semicolon,
            TokenKind::Comma => TokenKindV::Comma,
            TokenKind::Plus => TokenKindV::Plus,
            TokenKind::Minus => TokenKindV::Minus,
            TokenKind::Star => TokenKindV::Star,
            TokenKind::Slash => TokenKindV::Slash,
            TokenKind::Equal => TokenKindV::Equal,
            TokenKind::DoubleEqual => TokenKindV::DoubleEqual,
            TokenKind::NotEqual => TokenKindV::NotEqual,
            TokenKind::LessThan => TokenKindV::LessThan,
            TokenKind::LessEqual => TokenKindV::LessEqual,
            TokenKind::GreaterThan => TokenKindV::GreaterThan,
            TokenKind::GreaterEqual => TokenKindV::GreaterEqual,
            TokenKind::Not => TokenKindV::Not,
            TokenKind::And => TokenKindV::And,
            TokenKind::Or => TokenKindV::Or,
        }
    }
}

/// A token: a kind at a 1-based source position (start of the token).
#[derive(Debug, Clone, PartialEq)]
pub struct Token {
    pub kind: TokenKind,
    pub line: usize,
    pub column: usize,
}

/// Mathematical model of a token.
pub struct TokenV {
    pub kind: TokenKindV,
    pub line: int,
    pub column: int,
}

impl View for Token {
    type V = TokenV;

    open spec fn view(&self) -> TokenV {
        TokenV { kind: self.kind@, line: self.line as int, column: self.column as int }
    }
}

/// Relies on `String`'s `FromIterator<char>` implementation: collecting
/// characters yields the string holding exactly those characters in order.
#[verifier::external_body]
pub(crate) fn chars_to_string(v: &Vec<char>) -> (s: String)
    ensures
        s@ == v@,
{
    v.iter().collect()
}

/// The views of a sequence of tokens, element by element.
pub open spec fn tokens_view(ts: Seq<Token>) -> Seq<TokenV> {
    ts.map_values(|t: Token| t@)
}

} // verus!
