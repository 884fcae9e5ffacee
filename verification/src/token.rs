use vstd::prelude::*;

verus! {

/// Mathematical form of a token: payloads are sequences of characters and
/// unbounded integers, so contracts can speak of them directly.
pub enum TokenModel {
    Illegal(char),
    EOF,
    Type(Seq<char>),
    Ident(Seq<char>),
    Int(int),
    Float(Seq<char>),
    Bool(bool),
    Str(Seq<char>),
    Assign,
    Colon,
    Equal,
    NotEqual,
    Bang,
    Minus,
    Plus,
    Asterisk,
    Slash,
    Module,
}

/// The closed set of lexical unit kinds. A float literal carries its text
/// (digits, one dot, digits); turning that text into a machine float is left
/// to unverified callers, since floating point has no place in the verified
/// scanner.
#[derive(Debug, Clone)]
pub enum TokenType {
    Illegal(char),
    EOF,
    Type(String),
    Ident(String),
    Int(i32),
    Float(String),
    Bool(bool),
    String(String),
    Assign,
    Colon,
    Equal,
    NotEqual,
    Bang,
    Minus,
    Plus,
    Asterisk,
    Slash,
    Module,
}

impl View for TokenType {
    type V = TokenModel;

    open spec fn view(&self) -> TokenModel {
        match self {
            TokenType::Illegal(c) => TokenModel::Illegal(*c),
            TokenType::EOF => TokenModel::EOF,
            TokenType::Type(s) => TokenModel::Type(s@),
            TokenType::Ident(s) => TokenModel::Ident(s@),
            TokenType::Int(i) => TokenModel::Int(*i as int),
            TokenType::Float(s) => TokenModel::Float(s@),
            TokenType::Bool(b) => TokenModel::Bool(*b),
            TokenType::String(s) => TokenModel::Str(s@),
            TokenType::Assign => TokenModel::Assign,
            TokenType::Colon => TokenModel::Colon,
            TokenType::Equal => TokenModel::Equal,
            TokenType::NotEqual => TokenModel::NotEqual,
            TokenType::Bang => TokenModel::Bang,
            TokenType::Minus => TokenModel::Minus,
            TokenType::Plus => TokenModel::Plus,
            TokenType::Asterisk => TokenModel::Asterisk,
            TokenType::Slash => TokenModel::Slash,
            TokenType::Module => TokenModel::Module,
        }
    }
}

impl vstd::std_specs::cmp::PartialEqSpecImpl for TokenType {
    open spec fn obeys_eq_spec() -> bool {
        true
    }

    open spec fn eq_spec(&self, other: &TokenType) -> bool {
        self@ == other@
    }
}

impl PartialEq for TokenType {
    fn eq(&self, other: &TokenType) -> (r: bool) {
        match (self, other) {
            (TokenType::Illegal(a), TokenType::Illegal(b)) => *a == *b,
            (TokenType::EOF, TokenType::EOF) => true,
            (TokenType::Type(a), TokenType::Type(b)) => *a == *b,
            (TokenType::Ident(a), TokenType::Ident(b)) => *a == *b,
            (TokenType::Int(a), TokenType::Int(b)) => *a == *b,
            (TokenType::Float(a), TokenType::Float(b)) => *a == *b,
            (TokenType::Bool(a), TokenType::Bool(b)) => *a == *b,
            (TokenType::String(a), TokenType::String(b)) => *a == *b,
            (TokenType::Assign, TokenType::Assign) => true,
            (TokenType::Colon, TokenType::Colon) => true,
            (TokenType::Equal, TokenType::Equal) => true,
            (TokenType::NotEqual, TokenType::NotEqual) => true,
            (TokenType::Bang, TokenType::Bang) => true,
            (TokenType::Minus, TokenType::Minus) => true,
            (TokenType::Plus, TokenType::Plus) => true,
            (TokenType::Asterisk, TokenType::Asterisk) => true,
            (TokenType::Slash, TokenType::Slash) => true,
            (TokenType::Module, TokenType::Module) => true,
            _ => false,
        }
    }
}

/// One classified lexical unit; immutable once produced.
#[derive(Debug, Clone)]
pub struct Token {
    pub typ: TokenType,
}

impl View for Token {
    type V = TokenModel;

    open spec fn view(&self) -> TokenModel {
        self.typ@
    }
}

impl Token {
    pub fn new(typ: TokenType) -> (t: Token)
        ensures
            t.typ == typ,
    {
        Token { typ }
    }
}

/// The fatal, scan-level error channel: an integer literal whose digits do
/// not fit a 32-bit signed integer aborts the scan step instead of degrading
/// to an `Illegal` token.
#[derive(Debug, Clone, PartialEq, Eq, Structural)]
pub enum LexError {
    IntOutOfRange,
}

} // verus!
