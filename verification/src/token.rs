//! Tokens: what the lexer produces and the parser consumes.
use vstd::prelude::*;
use vstd::string::*;
use crate::ast::{Span, SpecSpan};

verus! {

/// The kind of a token. The text of identifiers, floats and strings is the
/// token's span input; only integers carry their value here.
#[derive(Debug, Clone, Copy, PartialEq, Eq, Structural)]
pub enum TokenKind {
    /// A name starting with a lower-case letter or `_`.
    Identifier,
    /// A name starting with an upper-case letter.
    PCIdentifier,
    Integer(i64),
    Float,
    String,
    True,
    False,
    Type,
    Let,
    In,
    If,
    Then,
    Else,
    Match,
    /// `=`
    Assign,
    /// `|`
    Pipe,
    /// `::`
    DoubleCollon,
    /// `:`
    Colon,
    Add,
    Sub,
    Mul,
    Div,
    /// `^`
    Exp,
    /// `%`
    Mod,
    /// `==`
    Eq,
    /// `!=`
    Neq,
    LParen,
    RParen,
    LBracket,
    RBracket,
    Comma,
    Semicolon,
    /// `->`
    Arrow,
    /// `\`, which starts a lambda.
    DoubleSlash,
    /// `_`
    Underscore,
    /// A run of blanks, tabs and line breaks.
    Whitespace,
    /// A character, or an unterminated string or out-of-range integer, that
    /// no other kind describes.
    Unknown,
    /// The end of the input.
    Eof,
}

/// The name of a token kind, as it reads in the kind's declaration.
pub open spec fn kind_name(k: TokenKind) -> Seq<char> {
    match k {
        TokenKind::Identifier => "Identifier"@,
        TokenKind::PCIdentifier => "PCIdentifier"@,
        TokenKind::Integer(_) => "Integer"@,
        TokenKind::Float => "Float"@,
        TokenKind::String => "String"@,
        TokenKind::True => "True"@,
        TokenKind::False => "False"@,
        TokenKind::Type => "Type"@,
        TokenKind::Let => "Let"@,
        TokenKind::In => "In"@,
        TokenKind::If => "If"@,
        TokenKind::Then => "Then"@,
        TokenKind::Else => "Else"@,
        TokenKind::Match => "Match"@,
        TokenKind::Assign => "Assign"@,
        TokenKind::Pipe => "Pipe"@,
        TokenKind::DoubleCollon => "DoubleCollon"@,
        TokenKind::Colon => "Colon"@,
        TokenKind::Add => "Add"@,
        TokenKind::Sub => "Sub"@,
        TokenKind::Mul => "Mul"@,
        TokenKind::Div => "Div"@,
        TokenKind::Exp => "Exp"@,
        TokenKind::Mod => "Mod"@,
        TokenKind::Eq => "Eq"@,
        TokenKind::Neq => "Neq"@,
        TokenKind::LParen => "LParen"@,
        TokenKind::RParen => "RParen"@,
        TokenKind::LBracket => "LBracket"@,
        TokenKind::RBracket => "RBracket"@,
        TokenKind::Comma => "Comma"@,
        TokenKind::Semicolon => "Semicolon"@,
        TokenKind::Arrow => "Arrow"@,
        TokenKind::DoubleSlash => "DoubleSlash"@,
        TokenKind::Underscore => "Underscore"@,
        TokenKind::Whitespace => "Whitespace"@,
        TokenKind::Unknown => "Unknown"@,
        TokenKind::Eof => "Eof"@,
    }
}

impl TokenKind {
    pub fn is_whitespace(&self) -> (r: bool)
        ensures
            r == (*self == TokenKind::Whitespace),
    {
        match self {
            TokenKind::Whitespace => true,
            _ => false,
        }
    }

    pub fn is_literal(&self) -> (r: bool)
        ensures
            r == (*self is Integer || *self is Float || *self is String || *self is True
                || *self is False),
    {
        match self {
            TokenKind::Integer(_) | TokenKind::Float | TokenKind::String | TokenKind::True
            | TokenKind::False => true,
            _ => false,
        }
    }

    pub fn is_identifier(&self) -> (r: bool)
        ensures
            r == (*self is Identifier || *self is PCIdentifier),
    {
        match self {
            TokenKind::Identifier | TokenKind::PCIdentifier => true,
            _ => false,
        }
    }

    /// The kind's name, as `kind_name` gives it.
    pub fn name(&self) -> (r: String)
        ensures
            r@ == kind_name(*self),
    {
        let s = match self {
            TokenKind::Identifier => "Identifier",
            TokenKind::PCIdentifier => "PCIdentifier",
            TokenKind::Integer(_) => "Integer",
            TokenKind::Float => "Float",
            TokenKind::String => "String",
            TokenKind::True => "True",
            TokenKind::False => "False",
            TokenKind::Type => "Type",
            TokenKind::Let => "Let",
            TokenKind::In => "In",
            TokenKind::If => "If",
            TokenKind::Then => "Then",
            TokenKind::Else => "Else",
            TokenKind::Match => "Match",
            TokenKind::Assign => "Assign",
            TokenKind::Pipe => "Pipe",
            TokenKind::DoubleCollon => "DoubleCollon",
            TokenKind::Colon => "Colon",
            TokenKind::Add => "Add",
            TokenKind::Sub => "Sub",
            TokenKind::Mul => "Mul",
            TokenKind::Div => "Div",
            TokenKind::Exp => "Exp",
            TokenKind::Mod => "Mod",
            TokenKind::Eq => "Eq",
            TokenKind::Neq => "Neq",
            TokenKind::LParen => "LParen",
            TokenKind::RParen => "RParen",
            TokenKind::LBracket => "LBracket",
            TokenKind::RBracket => "RBracket",
            TokenKind::Comma => "Comma",
            TokenKind::Semicolon => "Semicolon",
            TokenKind::Arrow => "Arrow",
            TokenKind::DoubleSlash => "DoubleSlash",
            TokenKind::Underscore => "Underscore",
            TokenKind::Whitespace => "Whitespace",
            TokenKind::Unknown => "Unknown",
            TokenKind::Eof => "Eof",
        };
        String::from_str(s)
    }
}

/// A token: its kind and where it stands in the source, in characters.
#[derive(Debug, Clone, PartialEq, Eq)]
pub struct Token {
    pub kind: TokenKind,
    pub span: Span,
}

pub struct SpecToken {
    pub kind: TokenKind,
    pub span: SpecSpan,
}

impl View for Token {
    type V = SpecToken;

    open spec fn view(&self) -> SpecToken {
        SpecToken { kind: self.kind, span: self.span@ }
    }
}

impl Token {
    pub fn new(kind: TokenKind, span: Span) -> (r: Token)
        ensures
            r.kind == kind,
            r.span == span,
    {
        Token { kind, span }
    }

    pub fn duplicate(&self) -> (r: Token)
        ensures
            r == *self,
    {
        Token { kind: self.kind, span: self.span.duplicate() }
    }
}

/// The tokens' views, in order.
pub open spec fn tokens_view(ts: Seq<Token>) -> Seq<SpecToken> {
    ts.map_values(|t: Token| t@)
}

} // verus!
