//! Lexical units: the kinds of tokens and the tokens themselves.
use crate::error_handling::{LineInformation, Span};
use vstd::prelude::*;

verus! {

/// The kind of a token. A floating-point literal keeps its decimal text;
/// its value is read from that text where one is needed.
#[derive(Clone, Debug, PartialEq)]
pub enum TokenType {
    // Single-character tokens
    LeftParenthesis,
    RightParenthesis,
    LeftBrace,
    RightBrace,
    Colon,
    Comma,
    Dot,
    Minus,
    Plus,
    Semicolon,
    Slash,
    Star,
    // One or two character tokens
    Bang,
    BangEqual,
    Equal,
    EqualEqual,
    Greater,
    GreaterEqual,
    Less,
    LessEqual,
    // Literals
    Identifier(String),
    StringValue(String),
    FloatValue(String),
    IntegerValue(i64),
    // Keywords
    And,
    Bool,
    Class,
    Else,
    False,
    Float,
    Fun,
    For,
    If,
    Int,
    Nil,
    Or,
    Print,
    Return,
    String,
    Super,
    This,
    True,
    Val,
    Var,
    While,
    // End of the input
    EOF,
}

/// The mathematical form of a `TokenType`: text payloads become character
/// sequences, every other kind stands for itself.
pub enum Kind {
    Plain(TokenType),
    Identifier(Seq<char>),
    StringValue(Seq<char>),
    FloatValue(Seq<char>),
}

impl View for TokenType {
    type V = Kind;

    open spec fn view(&self) -> Kind {
        match self {
            TokenType::Identifier(s) => Kind::Identifier(s@),
            TokenType::StringValue(s) => Kind::StringValue(s@),
            TokenType::FloatValue(s) => Kind::FloatValue(s@),
            _ => Kind::Plain(*self),
        }
    }
}

/// The mathematical form of a `Token`.
pub struct SpecToken {
    pub kind: Kind,
    pub offset: nat,
    pub length: nat,
}

/// A classified lexeme and the region of the source it covers.
#[derive(Debug)]
pub struct Token {
    token_type: TokenType,
    line_information: LineInformation,
}

impl View for Token {
    type V = SpecToken;

    closed spec fn view(&self) -> SpecToken {
        SpecToken {
            kind: self.token_type@,
            offset: self.line_information@.offset,
            length: self.line_information@.length,
        }
    }
}

impl Token {
    pub fn new(token_type: TokenType, line_information: LineInformation) -> (r: Token)
        ensures
            r@ == (SpecToken {
                kind: token_type@,
                offset: line_information@.offset,
                length: line_information@.length,
            }),
    {
        Token { token_type, line_information }
    }

    pub fn token_type(&self) -> (r: &TokenType)
        ensures
            r@ == self@.kind,
    {
        &self.token_type
    }

    pub fn line_information(&self) -> (r: &LineInformation)
        ensures
            r@ == (Span { offset: self@.offset, length: self@.length }),
    {
        &self.line_information
    }
}

} // verus!
