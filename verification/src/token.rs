//! Tokens of the notation and their mathematical view.

use vstd::prelude::*;

verus! {

/// What a token is, with a word as a sequence of characters.
pub enum Lexeme {
    Note(i8, i16),
    Integer(i64),
    Word(Seq<char>),
    Null,
}

/// One token of the notation.
#[derive(Debug, PartialEq)]
pub enum Token {
    /// An octave index and a degree.
    Note(i8, i16),
    /// A signed integer.
    Integer(i64),
    /// A command word.
    Word(String),
    /// The explicit absence of a value, written `_`.
    Null,
}

impl View for Token {
    type V = Lexeme;

    open spec fn view(&self) -> Lexeme {
        match *self {
            Token::Note(o, d) => Lexeme::Note(o, d),
            Token::Integer(i) => Lexeme::Integer(i),
            Token::Word(w) => Lexeme::Word(w@),
            Token::Null => Lexeme::Null,
        }
    }
}

impl Clone for Token {
    /// A token with the same view.
    fn clone(&self) -> (copy: Token)
        ensures
            copy@ == self@,
    {
        match self {
            Token::Note(octave, degree) => Token::Note(*octave, *degree),
            Token::Integer(i) => Token::Integer(*i),
            Token::Word(word) => Token::Word(word.clone()),
            Token::Null => Token::Null,
        }
    }
}

/// Why a line cannot be tokenized.
#[derive(Debug, Clone, Copy, PartialEq, Eq, Structural)]
pub enum LexError {
    /// An unsigned integer literal does not fit in 64 signed bits.
    Integer,
    /// The degree of a note does not fit in 16 signed bits.
    Note,
    /// The magnitude of a negative integer literal does not fit in 64 signed bits.
    Minus,
    /// A quoted string literal opens; the notation has none.
    Quoted,
}

} // verus!
