//! Tokens and the operator metadata (precedence, associativity) shared by
//! the parser and the tree builder.

use vstd::prelude::*;

verus! {

/// The kind of a lexed token. Literal-bearing variants carry their text;
/// a numeric literal keeps the exact source spelling of the number.
#[derive(PartialEq, Debug, Clone)]
pub enum TokenKind {
    // Infix operators
    Plus,
    Minus,
    Multiply,
    Divide,
    Mod,
    LessEq,
    GreaterEq,
    Greater,
    Less,
    BitAnd,
    BitOr,
    Xor,
    And,
    Or,
    Assign,
    Eq,
    NotEq,
    // Prefix operators
    BitNot,
    Not,
    // Keywords
    True,
    False,
    Fun,
    Match,
    While,
    For,
    Let,
    // Symbols
    LParen,
    RParen,
    LBrace,
    RBrace,
    LBracket,
    RBracket,
    Colon,
    Comma,
    Period,
    MatchArm,
    // Literals and anomalies
    String(String),
    Number(String),
    Ident(String),
    Undefined(String),
    Comment(String),
    Delimeter,
}

/// Mathematical model of a token kind: the same variants with text payloads
/// abstracted to sequences of characters.
pub enum SpecTokenKind {
    Plus,
    Minus,
    Multiply,
    Divide,
    Mod,
    LessEq,
    GreaterEq,
    Greater,
    Less,
    BitAnd,
    BitOr,
    Xor,
    And,
    Or,
    Assign,
    Eq,
    NotEq,
    BitNot,
    Not,
    True,
    False,
    Fun,
    Match,
    While,
    For,
    Let,
    LParen,
    RParen,
    LBrace,
    RBrace,
    LBracket,
    RBracket,
    Colon,
    Comma,
    Period,
    MatchArm,
    String(Seq<char>),
    Number(Seq<char>),
    Ident(Seq<char>),
    Undefined(Seq<char>),
    Comment(Seq<char>),
    Delimeter,
}

impl View for TokenKind {
    type V = SpecTokenKind;

    open spec fn view(&self) -> SpecTokenKind {
        match self {
            TokenKind::Plus => SpecTokenKind::Plus,
            TokenKind::Minus => SpecTokenKind::Minus,
            TokenKind::Multiply => SpecTokenKind::Multiply,
            TokenKind::Divide => SpecTokenKind::Divide,
            TokenKind::Mod => SpecTokenKind::Mod,
            TokenKind::LessEq => SpecTokenKind::LessEq,
            TokenKind::GreaterEq => SpecTokenKind::GreaterEq,
            TokenKind::Greater => SpecTokenKind::Greater,
            TokenKind::Less => SpecTokenKind::Less,
            TokenKind::BitAnd => SpecTokenKind::BitAnd,
            TokenKind::BitOr => SpecTokenKind::BitOr,
            TokenKind::Xor => SpecTokenKind::Xor,
            TokenKind::And => SpecTokenKind::And,
            TokenKind::Or => SpecTokenKind::Or,
            TokenKind::Assign => SpecTokenKind::Assign,
            TokenKind::Eq => SpecTokenKind::Eq,
            TokenKind::NotEq => SpecTokenKind::NotEq,
            TokenKind::BitNot => SpecTokenKind::BitNot,
            TokenKind::Not => SpecTokenKind::Not,
            TokenKind::True => SpecTokenKind::True,
            TokenKind::False => SpecTokenKind::False,
            TokenKind::Fun => SpecTokenKind::Fun,
            TokenKind::Match => SpecTokenKind::Match,
            TokenKind::While => SpecTokenKind::While,
            TokenKind::For => SpecTokenKind::For,
            TokenKind::Let => SpecTokenKind::Let,
            TokenKind::LParen => SpecTokenKind::LParen,
            TokenKind::RParen => SpecTokenKind::RParen,
            TokenKind::LBrace => SpecTokenKind::LBrace,
            TokenKind::RBrace => SpecTokenKind::RBrace,
            TokenKind::LBracket => SpecTokenKind::LBracket,
            TokenKind::RBracket => SpecTokenKind::RBracket,
            TokenKind::Colon => SpecTokenKind::Colon,
            TokenKind::Comma => SpecTokenKind::Comma,
            TokenKind::Period => SpecTokenKind::Period,
            TokenKind::MatchArm => SpecTokenKind::MatchArm,
            TokenKind::String(s) => SpecTokenKind::String(s@),
            TokenKind::Number(s) => SpecTokenKind::Number(s@),
            TokenKind::Ident(s) => SpecTokenKind::Ident(s@),
            TokenKind::Undefined(s) => SpecTokenKind::Undefined(s@),
            TokenKind::Comment(s) => SpecTokenKind::Comment(s@),
            TokenKind::Delimeter => SpecTokenKind::Delimeter,
        }
    }
}

impl DeepView for TokenKind {
    type V = SpecTokenKind;

    open spec fn deep_view(&self) -> SpecTokenKind {
        self.view()
    }
}

/// A token: its kind together with the (1-based line, 0-based column)
/// position of its first character.
#[derive(PartialEq, Debug)]
pub struct Token {
    pub kind: TokenKind,
    pub span: (usize, usize),
}

/// Mathematical model of a token.
pub struct SpecToken {
    pub kind: SpecTokenKind,
    pub span: (nat, nat),
}

impl View for Token {
    type V = SpecToken;

    open spec fn view(&self) -> SpecToken {
        SpecToken { kind: self.kind@, span: (self.span.0 as nat, self.span.1 as nat) }
    }
}

impl DeepView for Token {
    type V = SpecToken;

    open spec fn deep_view(&self) -> SpecToken {
        self.view()
    }
}

/// Operator associativity. Operands and brackets carry no associativity.
#[derive(PartialEq, Eq, Structural, Debug, Clone, Copy)]
pub enum Association {
    LTR,
    RTL,
    NonAssoc,
}

/// Precedence of a token kind; higher binds tighter. Kinds that are not
/// operators (and not parentheses) have precedence 0.
pub open spec fn spec_precedence(k: SpecTokenKind) -> u8 {
    match k {
        SpecTokenKind::LParen | SpecTokenKind::RParen => 12,
        SpecTokenKind::Not | SpecTokenKind::BitNot => 11,
        SpecTokenKind::Multiply | SpecTokenKind::Divide | SpecTokenKind::Mod => 10,
        SpecTokenKind::Plus | SpecTokenKind::Minus => 9,
        SpecTokenKind::Greater
        | SpecTokenKind::GreaterEq
        | SpecTokenKind::Less
        | SpecTokenKind::LessEq => 8,
        SpecTokenKind::Eq | SpecTokenKind::NotEq => 7,
        SpecTokenKind::BitAnd => 6,
        SpecTokenKind::Xor => 5,
        SpecTokenKind::BitOr => 4,
        SpecTokenKind::And => 3,
        SpecTokenKind::Or => 2,
        SpecTokenKind::Assign => 1,
        _ => 0,
    }
}

/// Associativity of a token kind; parentheses carry none.
pub open spec fn spec_associativity(k: SpecTokenKind) -> Association {
    match k {
        SpecTokenKind::Multiply
        | SpecTokenKind::Divide
        | SpecTokenKind::Mod
        | SpecTokenKind::Plus
        | SpecTokenKind::Minus
        | SpecTokenKind::Greater
        | SpecTokenKind::GreaterEq
        | SpecTokenKind::Less
        | SpecTokenKind::LessEq
        | SpecTokenKind::Eq
        | SpecTokenKind::NotEq
        | SpecTokenKind::BitAnd
        | SpecTokenKind::Xor
        | SpecTokenKind::BitOr
        | SpecTokenKind::And
        | SpecTokenKind::Or => Association::LTR,
        SpecTokenKind::Assign | SpecTokenKind::Not | SpecTokenKind::BitNot => Association::RTL,
        _ => Association::NonAssoc,
    }
}

/// A token is an operator exactly when its precedence is positive; this
/// includes the two parentheses.
pub open spec fn spec_is_op(k: SpecTokenKind) -> bool {
    spec_precedence(k) > 0
}

/// The always-unary prefix operators.
pub open spec fn spec_is_un_op(k: SpecTokenKind) -> bool {
    k is Not || k is BitNot
}

impl Token {
    /// Associativity of this token, as the parser consults it.
    pub fn get_associativity(&self) -> (r: Association)
        ensures
            r == spec_associativity(self@.kind),
    {
        match &self.kind {
            TokenKind::Multiply
            | TokenKind::Divide
            | TokenKind::Mod
            | TokenKind::Plus
            | TokenKind::Minus
            | TokenKind::Greater
            | TokenKind::GreaterEq
            | TokenKind::Less
            | TokenKind::LessEq
            | TokenKind::Eq
            | TokenKind::NotEq
            | TokenKind::BitAnd
            | TokenKind::Xor
            | TokenKind::BitOr
            | TokenKind::And
            | TokenKind::Or => Association::LTR,
            TokenKind::Assign | TokenKind::Not | TokenKind::BitNot => Association::RTL,
            _ => Association::NonAssoc,
        }
    }

    /// Precedence of this token; higher binds tighter.
    pub fn get_precedence(&self) -> (r: u8)
        ensures
            r == spec_precedence(self@.kind),
    {
        match &self.kind {
            TokenKind::LParen | TokenKind::RParen => 12,
            TokenKind::Not | TokenKind::BitNot => 11,
            TokenKind::Multiply | TokenKind::Divide | TokenKind::Mod => 10,
            TokenKind::Plus | TokenKind::Minus => 9,
            TokenKind::Greater | TokenKind::GreaterEq | TokenKind::Less | TokenKind::LessEq => 8,
            TokenKind::Eq | TokenKind::NotEq => 7,
            TokenKind::BitAnd => 6,
            TokenKind::Xor => 5,
            TokenKind::BitOr => 4,
            TokenKind::And => 3,
            TokenKind::Or => 2,
            TokenKind::Assign => 1,
            _ => 0,
        }
    }

    /// Whether this token is an operator (parentheses included).
    pub fn is_op(&self) -> (r: bool)
        ensures
            r == spec_is_op(self@.kind),
    {
        self.get_precedence() > 0
    }

    /// Whether this token is one of the always-unary prefix operators.
    pub fn is_un_op(&self) -> (r: bool)
        ensures
            r == spec_is_un_op(self@.kind),
    {
        matches!(self.kind, TokenKind::Not | TokenKind::BitNot)
    }
}

} // verus!
