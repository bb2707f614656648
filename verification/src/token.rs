//! The tokens of Kiln source text.

use vstd::prelude::*;

verus! {

/// A token produced by the lexer.
///
/// A floating-point literal is carried as the text that the lexer read
/// (digits with one decimal point); turning that text into a number is left
/// to the program that uses the library.
#[derive(Debug, PartialEq)]
pub enum Token {
    // Literals
    Int(i64),
    Float(String),
    StringLit(String),
    Bool(bool),
    // Identifier
    Identifier(String),
    // Keywords
    Main,
    Func,
    Let,
    Const,
    Export,
    Use,
    Struct,
    Return,
    If,
    Else,
    Then,
    End,
    While,
    For,
    Loop,
    Break,
    Continue,
    And,
    Or,
    Not,
    // Types
    TypeInt,
    TypeFloat,
    TypeBool,
    TypeString,
    TypeByte,
    TypePtr,
    // Symbols
    Colon,
    Semicolon,
    Comma,
    Dot,
    LParen,
    RParen,
    LBracket,
    RBracket,
    // Arithmetic
    Plus,
    Minus,
    Star,
    Slash,
    Percent,
    PlusPlus,
    MinusMinus,
    // Assignment
    Assign,
    PlusAssign,
    MinusAssign,
    StarAssign,
    SlashAssign,
    // Comparison
    Eq,
    NotEq,
    Lt,
    Gt,
    LtEq,
    GtEq,
    // Special
    Eof,
}

/// Two tokens are the same: of the same kind, with the same text or value.
pub open spec fn same_token(a: Token, b: Token) -> bool {
    match (a, b) {
        (Token::Float(x), Token::Float(y)) => x@ == y@,
        (Token::StringLit(x), Token::StringLit(y)) => x@ == y@,
        (Token::Identifier(x), Token::Identifier(y)) => x@ == y@,
        _ => a == b,
    }
}

impl Token {
    /// Whether `self` and `other` are the same token.
    pub fn same_as(&self, other: &Token) -> (r: bool)
        ensures
            r == same_token(*self, *other),
    {
        match (self, other) {
            (Token::Int(x), Token::Int(y)) => *x == *y,
            (Token::Float(x), Token::Float(y)) => *x == *y,
            (Token::StringLit(x), Token::StringLit(y)) => *x == *y,
            (Token::Bool(x), Token::Bool(y)) => *x == *y,
            (Token::Identifier(x), Token::Identifier(y)) => *x == *y,
            (Token::Main, Token::Main) => true,
            (Token::Func, Token::Func) => true,
            (Token::Let, Token::Let) => true,
            (Token::Const, Token::Const) => true,
            (Token::Export, Token::Export) => true,
            (Token::Use, Token::Use) => true,
            (Token::Struct, Token::Struct) => true,
            (Token::Return, Token::Return) => true,
            (Token::If, Token::If) => true,
            (Token::Else, Token::Else) => true,
            (Token::Then, Token::Then) => true,
            (Token::End, Token::End) => true,
            (Token::While, Token::While) => true,
            (Token::For, Token::For) => true,
            (Token::Loop, Token::Loop) => true,
            (Token::Break, Token::Break) => true,
            (Token::Continue, Token::Continue) => true,
            (Token::And, Token::And) => true,
            (Token::Or, Token::Or) => true,
            (Token::Not, Token::Not) => true,
            (Token::TypeInt, Token::TypeInt) => true,
            (Token::TypeFloat, Token::TypeFloat) => true,
            (Token::TypeBool, Token::TypeBool) => true,
            (Token::TypeString, Token::TypeString) => true,
            (Token::TypeByte, Token::TypeByte) => true,
            (Token::TypePtr, Token::TypePtr) => true,
            (Token::Colon, Token::Colon) => true,
            (Token::Semicolon, Token::Semicolon) => true,
            (Token::Comma, Token::Comma) => true,
            (Token::Dot, Token::Dot) => true,
            (Token::LParen, Token::LParen) => true,
            (Token::RParen, Token::RParen) => true,
            (Token::LBracket, Token::LBracket) => true,
            (Token::RBracket, Token::RBracket) => true,
            (Token::Plus, Token::Plus) => true,
            (Token::Minus, Token::Minus) => true,
            (Token::Star, Token::Star) => true,
            (Token::Slash, Token::Slash) => true,
            (Token::Percent, Token::Percent) => true,
            (Token::PlusPlus, Token::PlusPlus) => true,
            (Token::MinusMinus, Token::MinusMinus) => true,
            (Token::Assign, Token::Assign) => true,
            (Token::PlusAssign, Token::PlusAssign) => true,
            (Token::MinusAssign, Token::MinusAssign) => true,
            (Token::StarAssign, Token::StarAssign) => true,
            (Token::SlashAssign, Token::SlashAssign) => true,
            (Token::Eq, Token::Eq) => true,
            (Token::NotEq, Token::NotEq) => true,
            (Token::Lt, Token::Lt) => true,
            (Token::Gt, Token::Gt) => true,
            (Token::LtEq, Token::LtEq) => true,
            (Token::GtEq, Token::GtEq) => true,
            (Token::Eof, Token::Eof) => true,
            _ => false,
        }
    }
}

impl Clone for Token {
    fn clone(&self) -> (r: Self)
        ensures
            r == *self,
    {
        match self {
            Token::Int(n) => Token::Int(*n),
            Token::Float(s) => Token::Float(s.clone()),
            Token::StringLit(s) => Token::StringLit(s.clone()),
            Token::Bool(b) => Token::Bool(*b),
            Token::Identifier(s) => Token::Identifier(s.clone()),
            Token::Main => Token::Main,
            Token::Func => Token::Func,
            Token::Let => Token::Let,
            Token::Const => Token::Const,
            Token::Export => Token::Export,
            Token::Use => Token::Use,
            Token::Struct => Token::Struct,
            Token::Return => Token::Return,
            Token::If => Token::If,
            Token::Else => Token::Else,
            Token::Then => Token::Then,
            Token::End => Token::End,
            Token::While => Token::While,
            Token::For => Token::For,
            Token::Loop => Token::Loop,
            Token::Break => Token::Break,
            Token::Continue => Token::Continue,
            Token::And => Token::And,
            Token::Or => Token::Or,
            Token::Not => Token::Not,
            Token::TypeInt => Token::TypeInt,
            Token::TypeFloat => Token::TypeFloat,
            Token::TypeBool => Token::TypeBool,
            Token::TypeString => Token::TypeString,
            Token::TypeByte => Token::TypeByte,
            Token::TypePtr => Token::TypePtr,
            Token::Colon => Token::Colon,
            Token::Semicolon => Token::Semicolon,
            Token::Comma => Token::Comma,
            Token::Dot => Token::Dot,
            Token::LParen => Token::LParen,
            Token::RParen => Token::RParen,
            Token::LBracket => Token::LBracket,
            Token::RBracket => Token::RBracket,
            Token::Plus => Token::Plus,
            Token::Minus => Token::Minus,
            Token::Star => Token::Star,
            Token::Slash => Token::Slash,
            Token::Percent => Token::Percent,
            Token::PlusPlus => Token::PlusPlus,
            Token::MinusMinus => Token::MinusMinus,
            Token::Assign => Token::Assign,
            Token::PlusAssign => Token::PlusAssign,
            Token::MinusAssign => Token::MinusAssign,
            Token::StarAssign => Token::StarAssign,
            Token::SlashAssign => Token::SlashAssign,
            Token::Eq => Token::Eq,
            Token::NotEq => Token::NotEq,
            Token::Lt => Token::Lt,
            Token::Gt => Token::Gt,
            Token::LtEq => Token::LtEq,
            Token::GtEq => Token::GtEq,
            Token::Eof => Token::Eof,
        }
    }
}

} // verus!
