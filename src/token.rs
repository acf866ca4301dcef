use vstd::prelude::*;

verus! {

/// A lexical unit of the source language.
#[derive(Debug, PartialEq, Clone)]
pub enum Token {
    Number(i64),
    Increment,
    Decrement,
    LParen,
    RParen,
    Assign,
    LineEnd,
    Let,
    Identifier(String),
}

/// The mathematical model of a token: identifiers carry their characters.
pub ghost enum TokenModel {
    Number(i64),
    Increment,
    Decrement,
    LParen,
    RParen,
    Assign,
    LineEnd,
    Let,
    Identifier(Seq<char>),
}

impl View for Token {
    type V = TokenModel;

    open spec fn view(&self) -> TokenModel {
        match self {
            Token::Number(v) => TokenModel::Number(*v),
            Token::Increment => TokenModel::Increment,
            Token::Decrement => TokenModel::Decrement,
            Token::LParen => TokenModel::LParen,
            Token::RParen => TokenModel::RParen,
            Token::Assign => TokenModel::Assign,
            Token::LineEnd => TokenModel::LineEnd,
            Token::Let => TokenModel::Let,
            Token::Identifier(name) => TokenModel::Identifier(name@),
        }
    }
}

} // verus!
