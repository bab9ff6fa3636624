//! Tokens of the source language and their mathematical view.

use vstd::prelude::*;

verus! {

/// A lexical token of the source language.
#[derive(Debug, Clone)]
pub enum Token {
    Plus,
    Subtract,
    Multiply,
    Divide,
    Modulus,
    Assign,
    Num(i32),
    Ident(String),
    If,
    While,
    Read,
    Func,
    Return,
    Int,
    End,
    Print,
    Else,
    Break,
    Continue,
    LeftParen,
    RightParen,
    LeftCurly,
    RightCurly,
    LeftBracket,
    RightBracket,
    Comma,
    SemiColon,
    Less,
    LessEqual,
    Greater,
    GreaterEqual,
    Equality,
    NotEqual,
}

/// The mathematical value of a token: identifiers carry their characters.
pub enum TokenView {
    Plus,
    Subtract,
    Multiply,
    Divide,
    Modulus,
    Assign,
    Num(i32),
    Ident(Seq<char>),
    If,
    While,
    Read,
    Func,
    Return,
    Int,
    End,
    Print,
    Else,
    Break,
    Continue,
    LeftParen,
    RightParen,
    LeftCurly,
    RightCurly,
    LeftBracket,
    RightBracket,
    Comma,
    SemiColon,
    Less,
    LessEqual,
    Greater,
    GreaterEqual,
    Equality,
    NotEqual,
}

impl DeepView for Token {
    type V = TokenView;

    open spec fn deep_view(&self) -> TokenView {
        match self {
            Token::Plus => TokenView::Plus,
            Token::Subtract => TokenView::Subtract,
            Token::Multiply => TokenView::Multiply,
            Token::Divide => TokenView::Divide,
            Token::Modulus => TokenView::Modulus,
            Token::Assign => TokenView::Assign,
            Token::Num(v) => TokenView::Num(*v),
            Token::Ident(s) => TokenView::Ident(s@),
            Token::If => TokenView::If,
            Token::While => TokenView::While,
            Token::Read => TokenView::Read,
            Token::Func => TokenView::Func,
            Token::Return => TokenView::Return,
            Token::Int => TokenView::Int,
            Token::End => TokenView::End,
            Token::Print => TokenView::Print,
            Token::Else => TokenView::Else,
            Token::Break => TokenView::Break,
            Token::Continue => TokenView::Continue,
            Token::LeftParen => TokenView::LeftParen,
            Token::RightParen => TokenView::RightParen,
            Token::LeftCurly => TokenView::LeftCurly,
            Token::RightCurly => TokenView::RightCurly,
            Token::LeftBracket => TokenView::LeftBracket,
            Token::RightBracket => TokenView::RightBracket,
            Token::Comma => TokenView::Comma,
            Token::SemiColon => TokenView::SemiColon,
            Token::Less => TokenView::Less,
            Token::LessEqual => TokenView::LessEqual,
            Token::Greater => TokenView::Greater,
            Token::GreaterEqual => TokenView::GreaterEqual,
            Token::Equality => TokenView::Equality,
            Token::NotEqual => TokenView::NotEqual,
        }
    }
}

/// The token at position `i`; positions outside the sequence read as `End`.
pub open spec fn tok(t: Seq<TokenView>, i: int) -> TokenView {
    if 0 <= i < t.len() {
        t[i]
    } else {
        TokenView::End
    }
}

} // verus!
