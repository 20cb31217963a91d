use js_tokenizer::token::structs::comment::Comment;
use js_tokenizer::token::structs::error::{TokenizeError, TokenizeErrorKind};
use js_tokenizer::token::structs::literal::Literal;
use js_tokenizer::token::structs::token::{Token, TokenList, TokenType};

#[test]
fn test_add_2() {
    assert_eq!(1 + 1, 2);
}

#[test]
fn token_new_keeps_its_parts() {
    let token = Token::new(TokenType::Literal(Literal::HexInteger), 3, 9);
    assert_eq!(token.token_type, TokenType::Literal(Literal::HexInteger));
    assert_eq!(token.token_start_index, 3);
    assert_eq!(token.token_end_index, 9);
}

#[test]
fn token_try_new_needs_all_parts() {
    assert_eq!(
        Token::try_new(Some(TokenType::Identifier), Some(1), Some(4)),
        Some(Token::new(TokenType::Identifier, 1, 4))
    );
    assert_eq!(Token::try_new(None, Some(1), Some(4)), None);
    assert_eq!(Token::try_new(Some(TokenType::Identifier), None, Some(4)), None);
    assert_eq!(Token::try_new(Some(TokenType::Identifier), Some(1), None), None);
    assert_eq!(Token::try_new(None, None, None), None);
}

#[test]
fn new_whitespace_is_whitespace() {
    assert_eq!(TokenType::new_whitespace(), TokenType::WhiteSpace);
}

#[test]
fn token_list_append_adds_at_the_end() {
    let first = Token::new(TokenType::WhiteSpace, 0, 1);
    let second = Token::new(TokenType::Comment(Comment::SingleLineComment), 1, 5);
    let mut list = TokenList::new(vec![first]);
    assert_eq!(list.len(), 1);
    list.append(second);
    assert_eq!(list.len(), 2);
    assert_eq!(list.get(0), Some(first));
    assert_eq!(list.get(1), Some(second));
    assert_eq!(list.get(2), None);
    assert_eq!(list, TokenList::new(vec![first, second]));
}

#[test]
fn empty_token_list() {
    let list = TokenList::new(vec![]);
    assert_eq!(list.len(), 0);
    assert_eq!(list.get(0), None);
}

#[test]
fn error_new_keeps_kind_and_offset() {
    let error = TokenizeError::new(TokenizeErrorKind::UnterminatedComment, 15);
    assert_eq!(error.kind, TokenizeErrorKind::UnterminatedComment);
    assert_eq!(error.offset, 15);
}
