use vstd::prelude::*;
use super::comment::Comment;
use super::literal::Literal;
use super::punctuator::Punctuator;

verus! {

/// What a token is.
#[derive(PartialEq, Eq, Debug, Clone, Copy, Structural)]
pub enum TokenType {
    WhiteSpace,
    LineTerminator,
    Comment(Comment),
    Identifier,
    Punctuator(Punctuator),
    Literal(Literal),
    Template,
    /// The end of the input: the last token of every token list.
    Eof,
}

impl TokenType {
    pub fn new_whitespace() -> (token_type: TokenType)
        ensures
            token_type == TokenType::WhiteSpace,
    {
        TokenType::WhiteSpace
    }
}

/// A token: its kind and the half-open range of byte offsets
/// `[token_start_index, token_end_index)` that it covers in the source.
/// The text is not copied; slice the source to read it.
#[derive(PartialEq, Eq, Debug, Clone, Copy, Structural)]
pub struct Token {
    pub token_type: TokenType,
    pub token_start_index: usize,
    pub token_end_index: usize,
}

impl Token {
    /// Some token if all three parts are there, none if any is missing.
    pub fn try_new(
        token_type: Option<TokenType>,
        start_position: Option<usize>,
        end_position: Option<usize>,
    ) -> (token: Option<Token>)
        ensures
            token == (if token_type is Some && start_position is Some && end_position is Some {
                Some(
                    Token {
                        token_type: token_type->0,
                        token_start_index: start_position->0,
                        token_end_index: end_position->0,
                    },
                )
            } else {
                None
            }),
    {
        let token_type = token_type?;
        let start_position = start_position?;
        let end_position = end_position?;

        Some(Token::new(token_type, start_position, end_position))
    }

    pub fn new(token_type: TokenType, start_position: usize, end_position: usize) -> (token: Token)
        ensures
            token == (Token {
                token_type,
                token_start_index: start_position,
                token_end_index: end_position,
            }),
    {
        Token { token_type, token_start_index: start_position, token_end_index: end_position }
    }

    /// The span is a range, and it lies within a text of `length` bytes.
    pub open spec fn spans_within(self, length: nat) -> bool {
        self.token_start_index <= self.token_end_index <= length
    }
}

/// The tokens of one source text, in source order.
#[derive(PartialEq, Eq, Debug, Clone)]
pub struct TokenList {
    tokens: Vec<Token>,
}

impl View for TokenList {
    type V = Seq<Token>;

    closed spec fn view(&self) -> Seq<Token> {
        self.tokens@
    }
}

impl TokenList {
    pub fn new(tokens: Vec<Token>) -> (list: TokenList)
        ensures
            list@ == tokens@,
    {
        TokenList { tokens }
    }

    pub fn append(&mut self, token: Token)
        ensures
            final(self)@ == old(self)@.push(token),
    {
        self.tokens.push(token);
    }

    pub fn len(&self) -> (n: usize)
        ensures
            n == self@.len(),
    {
        self.tokens.len()
    }

    pub fn get(&self, index: usize) -> (token: Option<Token>)
        ensures
            token == (if index < self@.len() {
                Some(self@[index as int])
            } else {
                None
            }),
    {
        if index < self.tokens.len() {
            Some(self.tokens[index])
        } else {
            None
        }
    }
}

} // verus!
