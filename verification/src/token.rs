use vstd::prelude::*;

verus! {

/// A classified lexical unit.
///
/// Keywords, operators and separators carry no payload. An identifier and a
/// numeric literal carry their spelling, a string or character literal its
/// decoded content. `Error` marks a malformed lexeme.
#[derive(Debug, Hash, PartialEq, Eq, PartialOrd, Ord)]
pub enum Token {
    // keywords
    Bool,
    Break,
    Continue,
    Char,
    Else,
    Float,
    For,
    If,
    Int,
    Return,
    Struct,
    Enum,
    Void,
    While,
    Loop,
    Let,
    Const,
    Match,
    // operators
    Plus,
    PlusEq,
    Minus,
    MinusEq,
    Mult,
    MultEq,
    Div,
    DivEq,
    Dot,
    Not,
    NotEq,
    Eq,
    EqEq,
    Lt,
    LtEq,
    Gt,
    GtEq,
    And,
    AndEq,
    AndAnd,
    Or,
    OrEq,
    OrOr,
    Stab,
    Arrow,
    // separators
    LCurly,
    RCurly,
    LParen,
    RParen,
    LBracket,
    RBracket,
    Semicolon,
    Comma,
    Colon,
    ColonColon,
    /// An identifier, with its spelling.
    Id(String),
    /// A numeric literal of any form, with its spelling.
    IntLiteral(String),
    /// Reserved for a later numeric classification; the tokenizer never produces it.
    FloatLiteral(String),
    BooleanLiteral(bool),
    /// A string literal, with its escapes decoded.
    StringLiteral(String),
    /// A character literal, with its escape decoded.
    CharLiteral(char),
    /// A malformed lexeme.
    Error,
}

/// The mathematical value of a [`Token`]: the same variants, with every text
/// payload as a sequence of characters.
pub ghost enum TokenView {
    Bool,
    Break,
    Continue,
    Char,
    Else,
    Float,
    For,
    If,
    Int,
    Return,
    Struct,
    Enum,
    Void,
    While,
    Loop,
    Let,
    Const,
    Match,
    Plus,
    PlusEq,
    Minus,
    MinusEq,
    Mult,
    MultEq,
    Div,
    DivEq,
    Dot,
    Not,
    NotEq,
    Eq,
    EqEq,
    Lt,
    LtEq,
    Gt,
    GtEq,
    And,
    AndEq,
    AndAnd,
    Or,
    OrEq,
    OrOr,
    Stab,
    Arrow,
    LCurly,
    RCurly,
    LParen,
    RParen,
    LBracket,
    RBracket,
    Semicolon,
    Comma,
    Colon,
    ColonColon,
    Id(Seq<char>),
    IntLiteral(Seq<char>),
    FloatLiteral(Seq<char>),
    BooleanLiteral(bool),
    StringLiteral(Seq<char>),
    CharLiteral(char),
    Error,
}

impl View for Token {
    type V = TokenView;

    open spec fn view(&self) -> TokenView {
        match *self {
            Token::Bool => TokenView::Bool,
            Token::Break => TokenView::Break,
            Token::Continue => TokenView::Continue,
            Token::Char => TokenView::Char,
            Token::Else => TokenView::Else,
            Token::Float => TokenView::Float,
            Token::For => TokenView::For,
            Token::If => TokenView::If,
            Token::Int => TokenView::Int,
            Token::Return => TokenView::Return,
            Token::Struct => TokenView::Struct,
            Token::Enum => TokenView::Enum,
            Token::Void => TokenView::Void,
            Token::While => TokenView::While,
            Token::Loop => TokenView::Loop,
            Token::Let => TokenView::Let,
            Token::Const => TokenView::Const,
            Token::Match => TokenView::Match,
            Token::Plus => TokenView::Plus,
            Token::PlusEq => TokenView::PlusEq,
            Token::Minus => TokenView::Minus,
            Token::MinusEq => TokenView::MinusEq,
            Token::Mult => TokenView::Mult,
            Token::MultEq => TokenView::MultEq,
            Token::Div => TokenView::Div,
            Token::DivEq => TokenView::DivEq,
            Token::Dot => TokenView::Dot,
            Token::Not => TokenView::Not,
            Token::NotEq => TokenView::NotEq,
            Token::Eq => TokenView::Eq,
            Token::EqEq => TokenView::EqEq,
            Token::Lt => TokenView::Lt,
            Token::LtEq => TokenView::LtEq,
            Token::Gt => TokenView::Gt,
            Token::GtEq => TokenView::GtEq,
            Token::And => TokenView::And,
            Token::AndEq => TokenView::AndEq,
            Token::AndAnd => TokenView::AndAnd,
            Token::Or => TokenView::Or,
            Token::OrEq => TokenView::OrEq,
            Token::OrOr => TokenView::OrOr,
            Token::Stab => TokenView::Stab,
            Token::Arrow => TokenView::Arrow,
            Token::LCurly => TokenView::LCurly,
            Token::RCurly => TokenView::RCurly,
            Token::LParen => TokenView::LParen,
            Token::RParen => TokenView::RParen,
            Token::LBracket => TokenView::LBracket,
            Token::RBracket => TokenView::RBracket,
            Token::Semicolon => TokenView::Semicolon,
            Token::Comma => TokenView::Comma,
            Token::Colon => TokenView::Colon,
            Token::ColonColon => TokenView::ColonColon,
            Token::Id(s) => TokenView::Id(s@),
            Token::IntLiteral(s) => TokenView::IntLiteral(s@),
            Token::FloatLiteral(s) => TokenView::FloatLiteral(s@),
            Token::BooleanLiteral(b) => TokenView::BooleanLiteral(b),
            Token::StringLiteral(s) => TokenView::StringLiteral(s@),
            Token::CharLiteral(c) => TokenView::CharLiteral(c),
            Token::Error => TokenView::Error,
        }
    }
}

impl Clone for Token {
    /// A copy with the same variant and an equal payload.
    fn clone(&self) -> (copy: Self)
        ensures
            copy@ == self@,
    {
        match self {
            Token::Bool => Token::Bool,
            Token::Break => Token::Break,
            Token::Continue => Token::Continue,
            Token::Char => Token::Char,
            Token::Else => Token::Else,
            Token::Float => Token::Float,
            Token::For => Token::For,
            Token::If => Token::If,
            Token::Int => Token::Int,
            Token::Return => Token::Return,
            Token::Struct => Token::Struct,
            Token::Enum => Token::Enum,
            Token::Void => Token::Void,
            Token::While => Token::While,
            Token::Loop => Token::Loop,
            Token::Let => Token::Let,
            Token::Const => Token::Const,
            Token::Match => Token::Match,
            Token::Plus => Token::Plus,
            Token::PlusEq => Token::PlusEq,
            Token::Minus => Token::Minus,
            Token::MinusEq => Token::MinusEq,
            Token::Mult => Token::Mult,
            Token::MultEq => Token::MultEq,
            Token::Div => Token::Div,
            Token::DivEq => Token::DivEq,
            Token::Dot => Token::Dot,
            Token::Not => Token::Not,
            Token::NotEq => Token::NotEq,
            Token::Eq => Token::Eq,
            Token::EqEq => Token::EqEq,
            Token::Lt => Token::Lt,
            Token::LtEq => Token::LtEq,
            Token::Gt => Token::Gt,
            Token::GtEq => Token::GtEq,
            Token::And => Token::And,
            Token::AndEq => Token::AndEq,
            Token::AndAnd => Token::AndAnd,
            Token::Or => Token::Or,
            Token::OrEq => Token::OrEq,
            Token::OrOr => Token::OrOr,
            Token::Stab => Token::Stab,
            Token::Arrow => Token::Arrow,
            Token::LCurly => Token::LCurly,
            Token::RCurly => Token::RCurly,
            Token::LParen => Token::LParen,
            Token::RParen => Token::RParen,
            Token::LBracket => Token::LBracket,
            Token::RBracket => Token::RBracket,
            Token::Semicolon => Token::Semicolon,
            Token::Comma => Token::Comma,
            Token::Colon => Token::Colon,
            Token::ColonColon => Token::ColonColon,
            Token::Id(s) => Token::Id(s.clone()),
            Token::IntLiteral(s) => Token::IntLiteral(s.clone()),
            Token::FloatLiteral(s) => Token::FloatLiteral(s.clone()),
            Token::BooleanLiteral(b) => Token::BooleanLiteral(*b),
            Token::StringLiteral(s) => Token::StringLiteral(s.clone()),
            Token::CharLiteral(c) => Token::CharLiteral(*c),
            Token::Error => Token::Error,
        }
    }
}

/// The value of an optional token.
pub open spec fn option_view(t: Option<Token>) -> Option<TokenView> {
    match t {
        Some(t) => Some(t@),
        None => None,
    }
}

/// The values of a sequence of tokens, in order.
pub open spec fn views(tokens: Seq<Token>) -> Seq<TokenView> {
    Seq::new(tokens.len(), |i: int| tokens[i]@)
}

} // verus!
