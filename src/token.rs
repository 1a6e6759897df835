use vstd::prelude::*;

verus! {

/// A lexical token.
#[derive(Debug, Clone, PartialEq, Eq)]
pub enum Token {
    Int(i64),
    Plus,
    Minus,
    Asterisk,
    Slash,
    Ident(String),
    Fn,
    Lparen,
    Rparen,
    Lbracket,
    Rbracket,
    Comma,
    Semicolon,
    Eof,
}

/// The mathematical value of a token: an identifier is its sequence of characters.
pub enum TokenView {
    Int(i64),
    Plus,
    Minus,
    Asterisk,
    Slash,
    Ident(Seq<char>),
    Fn,
    Lparen,
    Rparen,
    Lbracket,
    Rbracket,
    Comma,
    Semicolon,
    Eof,
}

/// Binding strength of an infix operator, lowest first.
#[derive(Debug, Clone, Copy, PartialEq, Eq, Structural)]
pub enum Precedence {
    Lowest,
    Sum,
    Product,
}

impl Precedence {
    pub open spec fn rank(self) -> nat {
        match self {
            Precedence::Lowest => 0,
            Precedence::Sum => 1,
            Precedence::Product => 2,
        }
    }

    /// Whether `self` binds strictly more loosely than `other`.
    pub fn is_below(self, other: Precedence) -> (r: bool)
        ensures
            r == (self.rank() < other.rank()),
    {
        match (self, other) {
            (Precedence::Lowest, Precedence::Sum) => true,
            (Precedence::Lowest, Precedence::Product) => true,
            (Precedence::Sum, Precedence::Product) => true,
            _ => false,
        }
    }
}

pub open spec fn precedence_of(t: TokenView) -> Precedence {
    match t {
        TokenView::Plus | TokenView::Minus => Precedence::Sum,
        TokenView::Asterisk | TokenView::Slash => Precedence::Product,
        _ => Precedence::Lowest,
    }
}

impl View for Token {
    type V = TokenView;

    open spec fn view(&self) -> TokenView {
        match self {
            Token::Int(v) => TokenView::Int(*v),
            Token::Plus => TokenView::Plus,
            Token::Minus => TokenView::Minus,
            Token::Asterisk => TokenView::Asterisk,
            Token::Slash => TokenView::Slash,
            Token::Ident(s) => TokenView::Ident(s@),
            Token::Fn => TokenView::Fn,
            Token::Lparen => TokenView::Lparen,
            Token::Rparen => TokenView::Rparen,
            Token::Lbracket => TokenView::Lbracket,
            Token::Rbracket => TokenView::Rbracket,
            Token::Comma => TokenView::Comma,
            Token::Semicolon => TokenView::Semicolon,
            Token::Eof => TokenView::Eof,
        }
    }
}

impl Token {
    /// How tightly the token binds as an infix operator; `Lowest` for every
    /// token that is not one.
    pub fn precedence(&self) -> (r: Precedence)
        ensures
            r == precedence_of(self@),
    {
        match self {
            Token::Plus => Precedence::Sum,
            Token::Minus => Precedence::Sum,
            Token::Asterisk => Precedence::Product,
            Token::Slash => Precedence::Product,
            _ => Precedence::Lowest,
        }
    }
}

} // verus!
