use vstd::prelude::*;

verus! {

/// Why tokenizing stopped.
#[derive(PartialEq, Eq, Debug, Clone, Copy, Structural)]
pub enum TokenizeErrorKind {
    /// A character that starts no token.
    UnknownCharacter,
    /// A numeric literal that lacks a digit where one is required, or
    /// carries a letter or suffix that its form does not allow.
    InvalidNumericLiteral,
    /// A `_` that does not stand between two digits.
    InvalidNumericSeparator,
    /// `..`, which is no operator.
    InvalidPunctuator,
    /// A block comment that is still open at the end of the input.
    UnterminatedComment,
    /// A regular expression or template body.
    NotYetSupported,
    /// A scanner was asked for a token at the end of the input.
    UnexpectedEndOfInput,
}

/// A failure together with the byte offset at which it was found.
#[derive(PartialEq, Eq, Debug, Clone, Copy, Structural)]
pub struct TokenizeError {
    pub kind: TokenizeErrorKind,
    pub offset: usize,
}

impl TokenizeError {
    pub fn new(kind: TokenizeErrorKind, offset: usize) -> (error: TokenizeError)
        ensures
            error == (TokenizeError { kind, offset }),
    {
        TokenizeError { kind, offset }
    }
}

} // verus!
