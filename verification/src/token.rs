//! Tokens: the lexical units of a program text.

use crate::text::{decimal_text, push_decimal};
use vstd::prelude::*;

verus! {

/// One lexical unit of the source text.
#[derive(Debug, PartialEq)]
pub enum Token {
    Integer(i64),
    Symbol(String),
    LParen,
    RParen,
}

/// The mathematical value of a [`Token`]: symbol text is a sequence of
/// characters.
pub enum Lexeme {
    Integer(int),
    Symbol(Seq<char>),
    LParen,
    RParen,
}

impl View for Token {
    type V = Lexeme;

    open spec fn view(&self) -> Lexeme {
        match self {
            Token::Integer(n) => Lexeme::Integer(*n as int),
            Token::Symbol(s) => Lexeme::Symbol(s@),
            Token::LParen => Lexeme::LParen,
            Token::RParen => Lexeme::RParen,
        }
    }
}

impl Clone for Token {
    /// A copy with the same value.
    fn clone(&self) -> (res: Self)
        ensures
            res@ == self@,
    {
        match self {
            Token::Integer(n) => Token::Integer(*n),
            Token::Symbol(s) => Token::Symbol(s.clone()),
            Token::LParen => Token::LParen,
            Token::RParen => Token::RParen,
        }
    }
}

/// The text of a token, as it stands in a source text.
pub open spec fn lexeme_text(lexeme: Lexeme) -> Seq<char> {
    match lexeme {
        Lexeme::Integer(n) => decimal_text(n),
        Lexeme::Symbol(name) => name,
        Lexeme::LParen => "("@,
        Lexeme::RParen => ")"@,
    }
}

impl Token {
    /// The text of this token.
    pub fn to_string(&self) -> (text: String)
        ensures
            text@ == lexeme_text(self@),
    {
        let mut text = String::new();
        match self {
            Token::Integer(n) => {
                push_decimal(&mut text, *n);
            },
            Token::Symbol(name) => {
                text.append(name.as_str());
            },
            Token::LParen => {
                text.append("(");
            },
            Token::RParen => {
                text.append(")");
            },
        }
        assert(text@ =~= lexeme_text(self@));
        text
    }
}

} // verus!
