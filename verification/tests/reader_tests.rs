use js_tokenizer::ast::reader_struct::SourceCodeReader;
use js_tokenizer::character_patterns::{classify, CharacterClass};
use js_tokenizer::token::structs::context::{BraceContext, DivContext};
use js_tokenizer::token::structs::error::{TokenizeError, TokenizeErrorKind};
use js_tokenizer::token::structs::literal::Literal;
use js_tokenizer::token::structs::punctuator::Punctuator;
use js_tokenizer::token::structs::token::{Token, TokenType};
use js_tokenizer::token::tokenize::char_utf8_length;
use js_tokenizer::token::tokenize::punctuator::entered_behind;

#[test]
fn reader_hands_out_code_points_with_byte_offsets() {
    let mut reader = SourceCodeReader::new("aé→𝄞b");
    assert_eq!(reader.offset(), 0);
    assert_eq!(reader.peek(), Some((0, 'a')));
    assert_eq!(reader.advance(), Some((0, 'a')));
    assert_eq!(reader.peek(), Some((1, 'é')));
    assert_eq!(reader.advance(), Some((1, 'é')));
    assert_eq!(reader.advance(), Some((3, '→')));
    assert_eq!(reader.advance(), Some((6, '𝄞')));
    assert_eq!(reader.offset(), 10);
    assert_eq!(reader.advance(), Some((10, 'b')));
    assert_eq!(reader.offset(), 11);
    assert_eq!(reader.peek(), None);
}

#[test]
fn reader_offsets_agree_with_char_indices() {
    let source = "x = 'ゆ' /* ☃ */ \u{2028} 𝟘";
    let mut reader = SourceCodeReader::new(source);
    for expected in source.char_indices() {
        assert_eq!(reader.peek(), Some(expected));
        assert_eq!(reader.offset(), expected.0);
        assert_eq!(reader.advance(), Some(expected));
    }
    assert_eq!(reader.advance(), None);
    assert_eq!(reader.offset(), source.len());
}

#[test]
fn peek_does_not_move_the_reader() {
    let reader = SourceCodeReader::new("ab");
    assert_eq!(reader.peek(), Some((0, 'a')));
    assert_eq!(reader.peek(), Some((0, 'a')));
    assert_eq!(reader.offset(), 0);
}

#[test]
fn advance_at_the_end_returns_nothing_and_stays() {
    let mut reader = SourceCodeReader::new("é");
    assert_eq!(reader.advance(), Some((0, 'é')));
    assert_eq!(reader.advance(), None);
    assert_eq!(reader.advance(), None);
    assert_eq!(reader.offset(), 2);
    let mut empty = SourceCodeReader::new("");
    assert_eq!(empty.peek(), None);
    assert_eq!(empty.advance(), None);
    assert_eq!(empty.offset(), 0);
}

#[test]
fn peek_nth_looks_ahead() {
    let mut reader = SourceCodeReader::new("aéb");
    assert_eq!(reader.peek_nth(0), Some((0, 'a')));
    assert_eq!(reader.peek_nth(1), Some((1, 'é')));
    assert_eq!(reader.peek_nth(2), Some((3, 'b')));
    assert_eq!(reader.peek_nth(3), None);
    assert_eq!(reader.peek_nth(usize::MAX), None);
    reader.advance();
    assert_eq!(reader.peek_nth(1), Some((3, 'b')));
    assert_eq!(reader.peek_nth(2), None);
}

#[test]
fn advance_by_stops_at_the_end() {
    let mut reader = SourceCodeReader::new("aéb");
    reader.advance_by(2);
    assert_eq!(reader.peek(), Some((3, 'b')));
    reader.advance_by(0);
    assert_eq!(reader.offset(), 3);
    reader.advance_by(5);
    assert_eq!(reader.offset(), 4);
    assert_eq!(reader.peek(), None);
    reader.advance_by(usize::MAX);
    assert_eq!(reader.offset(), 4);
}

#[test]
fn utf8_length_of_each_width() {
    assert_eq!(char_utf8_length('\0'), 1);
    assert_eq!(char_utf8_length('a'), 1);
    assert_eq!(char_utf8_length('\u{7f}'), 1);
    assert_eq!(char_utf8_length('\u{80}'), 2);
    assert_eq!(char_utf8_length('\u{7ff}'), 2);
    assert_eq!(char_utf8_length('\u{800}'), 3);
    assert_eq!(char_utf8_length('\u{d7ff}'), 3);
    assert_eq!(char_utf8_length('\u{e000}'), 3);
    assert_eq!(char_utf8_length('\u{ffff}'), 3);
    assert_eq!(char_utf8_length('\u{10000}'), 4);
    assert_eq!(char_utf8_length('\u{10ffff}'), 4);
    for c in ['a', 'é', '→', '𝄞', '\u{feff}'] {
        assert_eq!(char_utf8_length(c), c.len_utf8());
    }
}

#[test]
fn classes_of_characters() {
    for c in [
        '\u{0009}', '\u{000B}', '\u{000C}', '\u{FEFF}', ' ', '\u{00A0}', '\u{1680}', '\u{2000}',
        '\u{2005}', '\u{200A}', '\u{202F}', '\u{205F}', '\u{3000}',
    ] {
        assert_eq!(classify(c), CharacterClass::Whitespace, "{:?}", c);
    }
    for c in ['\n', '\r', '\u{2028}', '\u{2029}'] {
        assert_eq!(classify(c), CharacterClass::LineTerminator, "{:?}", c);
    }
    for c in "{()[].;,<>=!+-*%&|^~?:".chars() {
        assert_eq!(classify(c), CharacterClass::PunctuatorStart, "{:?}", c);
    }
    for c in "0123456789".chars() {
        assert_eq!(classify(c), CharacterClass::DecimalDigit, "{:?}", c);
    }
    for c in ['/', '}', 'a', 'Z', '_', '$', '"', '\'', '`', '#', '@', '\\', '\u{200B}', '\u{1FFF}', 'é'] {
        assert_eq!(classify(c), CharacterClass::Other, "{:?}", c);
    }
}

#[test]
fn read_next_token_picks_the_scanner() {
    let mut reader = SourceCodeReader::new("a .5\n");
    let div = DivContext::Divide;
    let brace = BraceContext::Ordinary;
    assert_eq!(
        reader.read_next_token(div, brace),
        Ok(Token::new(TokenType::Identifier, 0, 1))
    );
    assert_eq!(
        reader.read_next_token(div, brace),
        Ok(Token::new(TokenType::WhiteSpace, 1, 2))
    );
    assert_eq!(
        reader.read_next_token(div, brace),
        Ok(Token::new(TokenType::Literal(Literal::DecimalPointNumber), 2, 4))
    );
    assert_eq!(
        reader.read_next_token(div, brace),
        Ok(Token::new(TokenType::LineTerminator, 4, 5))
    );
    assert_eq!(reader.read_next_token(div, brace), Ok(Token::new(TokenType::Eof, 5, 5)));
    assert_eq!(reader.read_next_token(div, brace), Ok(Token::new(TokenType::Eof, 5, 5)));
}

#[test]
fn read_next_token_takes_the_context_anew_each_time() {
    let mut reader = SourceCodeReader::new("/}/");
    assert_eq!(
        reader.read_next_token(DivContext::RegexStart, BraceContext::Ordinary),
        Err(TokenizeError::new(TokenizeErrorKind::NotYetSupported, 0))
    );
    assert_eq!(
        reader.read_next_token(DivContext::Divide, BraceContext::Ordinary),
        Ok(Token::new(TokenType::Punctuator(Punctuator::Divide), 0, 1))
    );
    assert_eq!(
        reader.read_next_token(DivContext::Divide, BraceContext::TemplateContinuation),
        Err(TokenizeError::new(TokenizeErrorKind::NotYetSupported, 1))
    );
    assert_eq!(
        reader.read_next_token(DivContext::RegexStart, BraceContext::Ordinary),
        Ok(Token::new(TokenType::Punctuator(Punctuator::RightBrace), 1, 2))
    );
    assert_eq!(
        reader.read_next_token(DivContext::Divide, BraceContext::TemplateContinuation),
        Ok(Token::new(TokenType::Punctuator(Punctuator::Divide), 2, 3))
    );
}

#[test]
fn read_next_token_dot_before_a_digit_is_a_number() {
    let mut reader = SourceCodeReader::new(".5.a");
    let div = DivContext::Divide;
    let brace = BraceContext::Ordinary;
    assert_eq!(
        reader.read_next_token(div, brace),
        Ok(Token::new(TokenType::Literal(Literal::DecimalPointNumber), 0, 2))
    );
    assert_eq!(
        reader.read_next_token(div, brace),
        Ok(Token::new(TokenType::Punctuator(Punctuator::Dot), 2, 3))
    );
}

#[test]
fn read_next_token_unknown_character_leaves_the_reader() {
    let mut reader = SourceCodeReader::new("#");
    assert_eq!(
        reader.read_next_token(DivContext::Divide, BraceContext::Ordinary),
        Err(TokenizeError::new(TokenizeErrorKind::UnknownCharacter, 0))
    );
    assert_eq!(reader.peek(), Some((0, '#')));
}

#[test]
fn reader_keeps_its_source() {
    let mut reader = SourceCodeReader::new("a + é");
    assert_eq!(reader.source(), "a + é");
    reader.advance_by(3);
    assert_eq!(reader.source(), "a + é");
}

#[test]
fn cloned_reader_moves_on_its_own() {
    let mut reader = SourceCodeReader::new("éab");
    reader.advance();
    let mut copy = reader.clone();
    assert_eq!(copy.peek(), Some((2, 'a')));
    assert_eq!(copy.source(), "éab");
    copy.advance();
    assert_eq!(copy.peek(), Some((3, 'b')));
    assert_eq!(reader.peek(), Some((2, 'a')));
}

#[test]
fn previous_is_the_code_point_consumed_last() {
    let mut reader = SourceCodeReader::new("aéb");
    assert_eq!(reader.previous(), None);
    reader.advance();
    assert_eq!(reader.previous(), Some((0, 'a')));
    assert_eq!(reader.peek(), Some((1, 'é')));
    reader.advance();
    assert_eq!(reader.previous(), Some((1, 'é')));
    reader.advance();
    assert_eq!(reader.previous(), Some((3, 'b')));
    assert_eq!(reader.advance(), None);
    assert_eq!(reader.previous(), Some((3, 'b')));
    assert_eq!(reader.offset(), 4);
}

#[test]
fn entered_behind_tells_where_the_lexeme_starts() {
    let mut reader = SourceCodeReader::new("é//");
    assert_eq!(entered_behind(&reader, 'é', '/'), None);
    reader.advance();
    assert_eq!(entered_behind(&reader, 'é', '/'), Some(0));
    assert_eq!(entered_behind(&reader, '/', '/'), None);
    reader.advance();
    assert_eq!(entered_behind(&reader, '/', '/'), Some(2));
    assert_eq!(entered_behind(&reader, '/', '*'), None);
    assert_eq!(reader.offset(), 3);
    reader.advance();
    assert_eq!(entered_behind(&reader, '/', '/'), None);
}
