use js_tokenizer::ast::reader_struct::SourceCodeReader;
use js_tokenizer::token::structs::comment::Comment;
use js_tokenizer::token::structs::context::{BraceContext, DivContext};
use js_tokenizer::token::structs::error::{TokenizeError, TokenizeErrorKind};
use js_tokenizer::token::structs::punctuator::Punctuator;
use js_tokenizer::token::structs::token::{Token, TokenType};
use js_tokenizer::token::tokenize::punctuator::{
    longest_punctuator_at, looks_at, tokenize_punctuator,
};

fn scan_punctuator(source: &str) -> Result<Token, TokenizeError> {
    let mut reader = SourceCodeReader::new(source);
    tokenize_punctuator(&mut reader, DivContext::Divide, BraceContext::Ordinary)
}

fn punctuator_token(kind: Punctuator, len: usize) -> Result<Token, TokenizeError> {
    Ok(Token::new(TokenType::Punctuator(kind), 0, len))
}

#[test]
fn left_brace() {
    assert_eq!(scan_punctuator("{abc"), punctuator_token(Punctuator::LeftBrace, 1));
}

#[test]
fn right_brace() {
    assert_eq!(scan_punctuator("}abc"), punctuator_token(Punctuator::RightBrace, 1));
}

#[test]
fn left_paren() {
    assert_eq!(scan_punctuator("(abc"), punctuator_token(Punctuator::LeftParen, 1));
}

#[test]
fn right_paren() {
    assert_eq!(scan_punctuator(")abc"), punctuator_token(Punctuator::RightParen, 1));
}

#[test]
fn left_bracket() {
    assert_eq!(scan_punctuator("[abc"), punctuator_token(Punctuator::LeftBracket, 1));
}

#[test]
fn right_bracket() {
    assert_eq!(scan_punctuator("]abc"), punctuator_token(Punctuator::RightBracket, 1));
}

#[test]
fn dot() {
    assert_eq!(scan_punctuator(".abc"), punctuator_token(Punctuator::Dot, 1));
}

#[test]
fn dot_three() {
    assert_eq!(scan_punctuator("...abc"), punctuator_token(Punctuator::DotThree, 3));
}

#[test]
fn semicolon() {
    assert_eq!(scan_punctuator(";abc"), punctuator_token(Punctuator::SemiColon, 1));
}

#[test]
fn comma() {
    assert_eq!(scan_punctuator(",abc"), punctuator_token(Punctuator::Comma, 1));
}

#[test]
fn less_than() {
    assert_eq!(scan_punctuator("<abc"), punctuator_token(Punctuator::LessThan, 1));
}

#[test]
fn less_than_equal() {
    assert_eq!(scan_punctuator("<=abc"), punctuator_token(Punctuator::LessThanEqual, 2));
}

#[test]
fn left_shift() {
    assert_eq!(scan_punctuator("<<abc"), punctuator_token(Punctuator::LeftShift, 2));
}

#[test]
fn left_shift_assign() {
    assert_eq!(scan_punctuator("<<=abc"), punctuator_token(Punctuator::LeftShiftAssign, 3));
}

#[test]
fn greater_than() {
    assert_eq!(scan_punctuator(">abc"), punctuator_token(Punctuator::GreaterThan, 1));
}

#[test]
fn greater_than_equal() {
    assert_eq!(scan_punctuator(">=abc"), punctuator_token(Punctuator::GreaterThanEqual, 2));
}

#[test]
fn right_shift() {
    assert_eq!(scan_punctuator(">>abc"), punctuator_token(Punctuator::RightShift, 2));
}

#[test]
fn right_shift_assign() {
    assert_eq!(scan_punctuator(">>=abc"), punctuator_token(Punctuator::RightShiftAssign, 3));
}

#[test]
fn unsigned_right_shift() {
    assert_eq!(scan_punctuator(">>>abc"), punctuator_token(Punctuator::UnsignedRightShift, 3));
}

#[test]
fn unsigned_right_shift_assign() {
    assert_eq!(scan_punctuator(">>>=abc"), punctuator_token(Punctuator::UnsignedRightShiftAssign, 4));
}

#[test]
fn assign() {
    assert_eq!(scan_punctuator("=abc"), punctuator_token(Punctuator::Assign, 1));
}

#[test]
fn equal() {
    assert_eq!(scan_punctuator("==abc"), punctuator_token(Punctuator::Equal, 2));
}

#[test]
fn strict_equal() {
    assert_eq!(scan_punctuator("===abc"), punctuator_token(Punctuator::StrictEqual, 3));
}

#[test]
fn arrow() {
    assert_eq!(scan_punctuator("=>abc"), punctuator_token(Punctuator::Arrow, 2));
}

#[test]
fn logical_not() {
    assert_eq!(scan_punctuator("!abc"), punctuator_token(Punctuator::LogicalNot, 1));
}

#[test]
fn not_equal() {
    assert_eq!(scan_punctuator("!=abc"), punctuator_token(Punctuator::NotEqual, 2));
}

#[test]
fn strict_not_equal() {
    assert_eq!(scan_punctuator("!==abc"), punctuator_token(Punctuator::StrictNotEqual, 3));
}

#[test]
fn plus() {
    assert_eq!(scan_punctuator("+abc"), punctuator_token(Punctuator::Plus, 1));
}

#[test]
fn plus_assign() {
    assert_eq!(scan_punctuator("+=abc"), punctuator_token(Punctuator::PlusAssign, 2));
}

#[test]
fn increment() {
    assert_eq!(scan_punctuator("++abc"), punctuator_token(Punctuator::Increment, 2));
}

#[test]
fn minus() {
    assert_eq!(scan_punctuator("-abc"), punctuator_token(Punctuator::Minus, 1));
}

#[test]
fn minus_assign() {
    assert_eq!(scan_punctuator("-=abc"), punctuator_token(Punctuator::MinusAssign, 2));
}

#[test]
fn decrement() {
    assert_eq!(scan_punctuator("--abc"), punctuator_token(Punctuator::Decrement, 2));
}

#[test]
fn multiply() {
    assert_eq!(scan_punctuator("*abc"), punctuator_token(Punctuator::Multiply, 1));
}

#[test]
fn multiply_assign() {
    assert_eq!(scan_punctuator("*=abc"), punctuator_token(Punctuator::MultiplyAssign, 2));
}

#[test]
fn exponentiation() {
    assert_eq!(scan_punctuator("**abc"), punctuator_token(Punctuator::Exponentiation, 2));
}

#[test]
fn exponentiation_assign() {
    assert_eq!(scan_punctuator("**=abc"), punctuator_token(Punctuator::ExponentiationAssign, 3));
}

#[test]
fn divide() {
    assert_eq!(scan_punctuator("/abc"), punctuator_token(Punctuator::Divide, 1));
}

#[test]
fn divide_assign() {
    assert_eq!(scan_punctuator("/=abc"), punctuator_token(Punctuator::DivideAssign, 2));
}

#[test]
fn remainder() {
    assert_eq!(scan_punctuator("%abc"), punctuator_token(Punctuator::Remainder, 1));
}

#[test]
fn remainder_assign() {
    assert_eq!(scan_punctuator("%=abc"), punctuator_token(Punctuator::RemainderAssign, 2));
}

#[test]
fn bit_and() {
    assert_eq!(scan_punctuator("&abc"), punctuator_token(Punctuator::BitAnd, 1));
}

#[test]
fn bit_and_assign() {
    assert_eq!(scan_punctuator("&=abc"), punctuator_token(Punctuator::BitAndAssign, 2));
}

#[test]
fn logical_and() {
    assert_eq!(scan_punctuator("&&abc"), punctuator_token(Punctuator::LogicalAnd, 2));
}

#[test]
fn logical_and_assign() {
    assert_eq!(scan_punctuator("&&=abc"), punctuator_token(Punctuator::LogicalAndAssign, 3));
}

#[test]
fn bit_or() {
    assert_eq!(scan_punctuator("|abc"), punctuator_token(Punctuator::BitOr, 1));
}

#[test]
fn bit_or_assign() {
    assert_eq!(scan_punctuator("|=abc"), punctuator_token(Punctuator::BitOrAssign, 2));
}

#[test]
fn logical_or() {
    assert_eq!(scan_punctuator("||abc"), punctuator_token(Punctuator::LogicalOr, 2));
}

#[test]
fn logical_or_assign() {
    assert_eq!(scan_punctuator("||=abc"), punctuator_token(Punctuator::LogicalOrAssign, 3));
}

#[test]
fn bit_xor() {
    assert_eq!(scan_punctuator("^abc"), punctuator_token(Punctuator::BitXor, 1));
}

#[test]
fn bit_xor_assign() {
    assert_eq!(scan_punctuator("^=abc"), punctuator_token(Punctuator::BitXorAssign, 2));
}

#[test]
fn bit_not() {
    assert_eq!(scan_punctuator("~abc"), punctuator_token(Punctuator::BitNot, 1));
}

#[test]
fn ternary_colon() {
    assert_eq!(scan_punctuator(":abc"), punctuator_token(Punctuator::TernaryColon, 1));
}

#[test]
fn ternary_question() {
    assert_eq!(scan_punctuator("?abc"), punctuator_token(Punctuator::TernaryQuestion, 1));
}

#[test]
fn nullish_coalesce() {
    assert_eq!(scan_punctuator("??abc"), punctuator_token(Punctuator::NullishCoalesce, 2));
}

#[test]
fn nullish_coalesce_assign() {
    assert_eq!(scan_punctuator("??=abc"), punctuator_token(Punctuator::NullishCoalesceAssign, 3));
}

#[test]
fn optional_chain() {
    assert_eq!(scan_punctuator("?.abc"), punctuator_token(Punctuator::OptionalChain, 2));
}

#[test]
fn punctuator_alone_at_end_of_input() {
    assert_eq!(scan_punctuator(">>>="), punctuator_token(Punctuator::UnsignedRightShiftAssign, 4));
    assert_eq!(scan_punctuator(">>>"), punctuator_token(Punctuator::UnsignedRightShift, 3));
    assert_eq!(scan_punctuator(">>"), punctuator_token(Punctuator::RightShift, 2));
    assert_eq!(scan_punctuator(">"), punctuator_token(Punctuator::GreaterThan, 1));
    assert_eq!(scan_punctuator("."), punctuator_token(Punctuator::Dot, 1));
    assert_eq!(scan_punctuator("..."), punctuator_token(Punctuator::DotThree, 3));
}

#[test]
fn longest_operator_wins_over_its_prefixes() {
    assert_eq!(scan_punctuator("**=**"), punctuator_token(Punctuator::ExponentiationAssign, 3));
    assert_eq!(scan_punctuator("&&&"), punctuator_token(Punctuator::LogicalAnd, 2));
    assert_eq!(scan_punctuator("=>>"), punctuator_token(Punctuator::Arrow, 2));
    assert_eq!(scan_punctuator("?.."), punctuator_token(Punctuator::OptionalChain, 2));
    assert_eq!(scan_punctuator("???"), punctuator_token(Punctuator::NullishCoalesce, 2));
    assert_eq!(scan_punctuator("+-"), punctuator_token(Punctuator::Plus, 1));
    assert_eq!(scan_punctuator("....", ), punctuator_token(Punctuator::DotThree, 3));
}

#[test]
fn reader_rests_behind_the_punctuator() {
    let mut reader = SourceCodeReader::new("<<=abc");
    let token = tokenize_punctuator(&mut reader, DivContext::Divide, BraceContext::Ordinary);
    assert_eq!(token, punctuator_token(Punctuator::LeftShiftAssign, 3));
    assert_eq!(reader.offset(), 3);
    assert_eq!(reader.peek(), Some((3, 'a')));
}

#[test]
fn two_dots_are_no_punctuator() {
    let mut reader = SourceCodeReader::new("..a");
    let result = tokenize_punctuator(&mut reader, DivContext::Divide, BraceContext::Ordinary);
    assert_eq!(result, Err(TokenizeError::new(TokenizeErrorKind::InvalidPunctuator, 0)));
    assert_eq!(reader.offset(), 0);
    assert_eq!(
        scan_punctuator(".."),
        Err(TokenizeError::new(TokenizeErrorKind::InvalidPunctuator, 0))
    );
}

#[test]
fn two_dots_fail_at_their_own_offset() {
    let mut reader = SourceCodeReader::new("a ..");
    reader.advance_by(2);
    let result = tokenize_punctuator(&mut reader, DivContext::Divide, BraceContext::Ordinary);
    assert_eq!(result, Err(TokenizeError::new(TokenizeErrorKind::InvalidPunctuator, 2)));
}

#[test]
fn slash_where_a_regex_may_start_is_not_supported() {
    let mut reader = SourceCodeReader::new("/abc/");
    let result = tokenize_punctuator(&mut reader, DivContext::RegexStart, BraceContext::Ordinary);
    assert_eq!(result, Err(TokenizeError::new(TokenizeErrorKind::NotYetSupported, 0)));
    assert_eq!(reader.offset(), 0);
}

#[test]
fn divide_assign_and_comments_do_not_depend_on_the_slash_context() {
    let mut reader = SourceCodeReader::new("/=1");
    let result = tokenize_punctuator(&mut reader, DivContext::RegexStart, BraceContext::Ordinary);
    assert_eq!(result, punctuator_token(Punctuator::DivideAssign, 2));

    let mut reader = SourceCodeReader::new("// x");
    let result = tokenize_punctuator(&mut reader, DivContext::RegexStart, BraceContext::Ordinary);
    assert_eq!(
        result,
        Ok(Token::new(TokenType::Comment(Comment::SingleLineComment), 0, 4))
    );

    let mut reader = SourceCodeReader::new("/* x */ y");
    let result = tokenize_punctuator(&mut reader, DivContext::RegexStart, BraceContext::Ordinary);
    assert_eq!(
        result,
        Ok(Token::new(TokenType::Comment(Comment::MultiLineComment), 0, 7))
    );
}

#[test]
fn right_brace_where_template_text_goes_on_is_not_supported() {
    let mut reader = SourceCodeReader::new("} tail`");
    let result = tokenize_punctuator(
        &mut reader,
        DivContext::Divide,
        BraceContext::TemplateContinuation,
    );
    assert_eq!(result, Err(TokenizeError::new(TokenizeErrorKind::NotYetSupported, 0)));

    let mut reader = SourceCodeReader::new("{");
    let result = tokenize_punctuator(
        &mut reader,
        DivContext::Divide,
        BraceContext::TemplateContinuation,
    );
    assert_eq!(result, punctuator_token(Punctuator::LeftBrace, 1));
}

#[test]
fn punctuator_scanner_on_another_character() {
    assert_eq!(
        scan_punctuator("abc"),
        Err(TokenizeError::new(TokenizeErrorKind::UnknownCharacter, 0))
    );
    assert_eq!(
        scan_punctuator("#"),
        Err(TokenizeError::new(TokenizeErrorKind::UnknownCharacter, 0))
    );
}

#[test]
fn punctuator_scanner_at_end_of_input() {
    assert_eq!(
        scan_punctuator(""),
        Err(TokenizeError::new(TokenizeErrorKind::UnexpectedEndOfInput, 0))
    );
    let mut reader = SourceCodeReader::new("ab");
    reader.advance_by(2);
    let result = tokenize_punctuator(&mut reader, DivContext::Divide, BraceContext::Ordinary);
    assert_eq!(
        result,
        Err(TokenizeError::new(TokenizeErrorKind::UnexpectedEndOfInput, 2))
    );
}

#[test]
fn longest_punctuator_lookahead_does_not_move_the_reader() {
    let reader = SourceCodeReader::new("!==x");
    assert_eq!(longest_punctuator_at(&reader), Some(Punctuator::StrictNotEqual));
    assert_eq!(reader.offset(), 0);
    assert!(looks_at(&reader, '!', '='));
    assert!(!looks_at(&reader, '!', '!'));
    let reader = SourceCodeReader::new("x");
    assert_eq!(longest_punctuator_at(&reader), None);
    assert!(!looks_at(&reader, 'x', 'x'));
}

#[test]
fn punctuator_text_table() {
    assert_eq!(Punctuator::LeftBrace.to_source_string(), "{");
    assert_eq!(Punctuator::DotThree.to_source_string(), "...");
    assert_eq!(Punctuator::UnsignedRightShiftAssign.to_source_string(), ">>>=");
    assert_eq!(Punctuator::NullishCoalesceAssign.to_source_string(), "??=");
    assert_eq!(Punctuator::OptionalChain.to_source_string(), "?.");
    assert_eq!(Punctuator::Arrow.to_source_string(), "=>");
    assert_eq!(Punctuator::TernaryColon.to_source_string(), ":");
    assert_eq!(Punctuator::Exponentiation.length(), 2);
    assert_eq!(Punctuator::UnsignedRightShiftAssign.length(), 4);
    assert_eq!(Punctuator::StrictEqual.length(), 3);
    assert_eq!(Punctuator::BitNot.length(), 1);
}

#[test]
fn every_punctuator_is_read_back_from_its_text() {
    let all = [
        Punctuator::LeftBrace, Punctuator::RightBrace, Punctuator::LeftParen,
        Punctuator::RightParen, Punctuator::LeftBracket, Punctuator::RightBracket,
        Punctuator::Dot, Punctuator::DotThree, Punctuator::SemiColon, Punctuator::Comma,
        Punctuator::LessThan, Punctuator::GreaterThan, Punctuator::LessThanEqual,
        Punctuator::GreaterThanEqual, Punctuator::Equal, Punctuator::NotEqual,
        Punctuator::StrictEqual, Punctuator::StrictNotEqual, Punctuator::Plus,
        Punctuator::Minus, Punctuator::Multiply, Punctuator::Divide, Punctuator::Remainder,
        Punctuator::Exponentiation, Punctuator::Increment, Punctuator::Decrement,
        Punctuator::LeftShift, Punctuator::RightShift, Punctuator::UnsignedRightShift,
        Punctuator::BitAnd, Punctuator::BitOr, Punctuator::BitXor, Punctuator::LogicalNot,
        Punctuator::BitNot, Punctuator::LogicalAnd, Punctuator::LogicalOr,
        Punctuator::NullishCoalesce, Punctuator::TernaryQuestion, Punctuator::TernaryColon,
        Punctuator::Assign, Punctuator::PlusAssign, Punctuator::MinusAssign,
        Punctuator::MultiplyAssign, Punctuator::DivideAssign, Punctuator::RemainderAssign,
        Punctuator::ExponentiationAssign, Punctuator::LeftShiftAssign,
        Punctuator::RightShiftAssign, Punctuator::UnsignedRightShiftAssign,
        Punctuator::BitAndAssign, Punctuator::BitOrAssign, Punctuator::BitXorAssign,
        Punctuator::LogicalAndAssign, Punctuator::LogicalOrAssign,
        Punctuator::NullishCoalesceAssign, Punctuator::Arrow, Punctuator::OptionalChain,
    ];
    for kind in all {
        let text = kind.to_source_string();
        assert_eq!(text.len(), kind.length());
        assert_eq!(scan_punctuator(&text), punctuator_token(kind, text.len()), "{}", text);
    }
}
