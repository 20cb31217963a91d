use js_tokenizer::ast::reader_struct::SourceCodeReader;
use js_tokenizer::token::structs::error::{TokenizeError, TokenizeErrorKind};
use js_tokenizer::token::structs::literal::Literal;
use js_tokenizer::token::structs::token::{Token, TokenType};
use js_tokenizer::token::tokenize::literal::{
    digit_of, tokenize_binary_number_literal, tokenize_decimal_number_literal,
    tokenize_hex_number_literal, tokenize_legacy_octal_number_literal, tokenize_numeric_literal,
    tokenize_octal_number_literal, tokenize_radix_number_literal, Radix,
};

fn scan_number(source: &str) -> Result<Token, TokenizeError> {
    let mut reader = SourceCodeReader::new(source);
    tokenize_numeric_literal(&mut reader)
}

fn literal_token(kind: Literal, len: usize) -> Result<Token, TokenizeError> {
    Ok(Token::new(TokenType::Literal(kind), 0, len))
}

fn number_failure(kind: TokenizeErrorKind, offset: usize) -> Result<Token, TokenizeError> {
    Err(TokenizeError::new(kind, offset))
}

#[test]
fn dec_int_zero() {
    assert_eq!(scan_number("0"), literal_token(Literal::DecimalInteger, 1));
}

#[test]
fn dec_int() {
    assert_eq!(scan_number("1234"), literal_token(Literal::DecimalInteger, 4));
}

#[test]
fn dec_int_sep() {
    assert_eq!(scan_number("12_34"), literal_token(Literal::DecimalInteger, 5));
}

#[test]
fn dec_point() {
    assert_eq!(scan_number("12.34"), literal_token(Literal::DecimalPointNumber, 5));
}

#[test]
fn dec_exp_lower() {
    assert_eq!(scan_number("12e34"), literal_token(Literal::DecimalExponentNumber, 5));
}

#[test]
fn dec_exp_upper() {
    assert_eq!(scan_number("12E34"), literal_token(Literal::DecimalExponentNumber, 5));
}

#[test]
fn dec_point_exp() {
    assert_eq!(scan_number("12.34e56"), literal_token(Literal::DecimalPointExponentNumber, 8));
}

#[test]
fn dec_point_exp_sep() {
    assert_eq!(scan_number("1_2.3_4e5_6"), literal_token(Literal::DecimalPointExponentNumber, 11));
}

#[test]
fn dec_bigint_zero() {
    assert_eq!(scan_number("0n"), literal_token(Literal::DecimalBigInteger, 2));
}

#[test]
fn dec_bigint() {
    assert_eq!(scan_number("1234n"), literal_token(Literal::DecimalBigInteger, 5));
}

#[test]
fn dec_bigint_sep() {
    assert_eq!(scan_number("12_34n"), literal_token(Literal::DecimalBigInteger, 6));
}

#[test]
fn bin_int_lower() {
    assert_eq!(scan_number("0b1101"), literal_token(Literal::BinaryInteger, 6));
}

#[test]
fn bin_int_upper() {
    assert_eq!(scan_number("0B1101"), literal_token(Literal::BinaryInteger, 6));
}

#[test]
fn bin_int_sep() {
    assert_eq!(scan_number("0b11_01"), literal_token(Literal::BinaryInteger, 7));
}

#[test]
fn bin_int_zero() {
    assert_eq!(scan_number("0B0"), literal_token(Literal::BinaryInteger, 3));
}

#[test]
fn bin_bigint_lower() {
    assert_eq!(scan_number("0b1101n"), literal_token(Literal::BinaryBigInteger, 7));
}

#[test]
fn bin_bigint_upper() {
    assert_eq!(scan_number("0B1101n"), literal_token(Literal::BinaryBigInteger, 7));
}

#[test]
fn bin_bigint_sep() {
    assert_eq!(scan_number("0B11_01n"), literal_token(Literal::BinaryBigInteger, 8));
}

#[test]
fn bin_bigint_zero() {
    assert_eq!(scan_number("0b0n"), literal_token(Literal::BinaryBigInteger, 4));
}

#[test]
fn oct_int_lower() {
    assert_eq!(scan_number("0o1267"), literal_token(Literal::OctalInteger, 6));
}

#[test]
fn oct_int_upper() {
    assert_eq!(scan_number("0O1267"), literal_token(Literal::OctalInteger, 6));
}

#[test]
fn oct_int_sep() {
    assert_eq!(scan_number("0O12_67"), literal_token(Literal::OctalInteger, 7));
}

#[test]
fn oct_int_zero() {
    assert_eq!(scan_number("0o0"), literal_token(Literal::OctalInteger, 3));
}

#[test]
fn oct_bigint_lower() {
    assert_eq!(scan_number("0o1267n"), literal_token(Literal::OctalBigInteger, 7));
}

#[test]
fn oct_bigint_upper() {
    assert_eq!(scan_number("0O1267n"), literal_token(Literal::OctalBigInteger, 7));
}

#[test]
fn oct_bigint_sep() {
    assert_eq!(scan_number("0O12_67n"), literal_token(Literal::OctalBigInteger, 8));
}

#[test]
fn oct_bigint_zero() {
    assert_eq!(scan_number("0o0n"), literal_token(Literal::OctalBigInteger, 4));
}

#[test]
fn hex_int_lower() {
    assert_eq!(scan_number("0x12ef"), literal_token(Literal::HexInteger, 6));
}

#[test]
fn hex_int_upper() {
    assert_eq!(scan_number("0X12ef"), literal_token(Literal::HexInteger, 6));
}

#[test]
fn hex_int_sep() {
    assert_eq!(scan_number("0x12_ef"), literal_token(Literal::HexInteger, 7));
}

#[test]
fn hex_int_zero() {
    assert_eq!(scan_number("0x0"), literal_token(Literal::HexInteger, 3));
}

#[test]
fn hex_bigint_lower() {
    assert_eq!(scan_number("0x12efn"), literal_token(Literal::HexBigInteger, 7));
}

#[test]
fn hex_bigint_upper() {
    assert_eq!(scan_number("0X12efn"), literal_token(Literal::HexBigInteger, 7));
}

#[test]
fn hex_bigint_sep() {
    assert_eq!(scan_number("0x12_efn"), literal_token(Literal::HexBigInteger, 8));
}

#[test]
fn hex_bigint_zero() {
    assert_eq!(scan_number("0x0n"), literal_token(Literal::HexBigInteger, 4));
}

#[test]
fn legacy_octal_int_1() {
    assert_eq!(scan_number("01267"), literal_token(Literal::LegacyOctalInteger, 5));
}

#[test]
fn legacy_octal_int_2() {
    assert_eq!(scan_number("01268"), literal_token(Literal::DecimalInteger, 5));
}

#[test]
fn literal_ends_where_the_number_ends() {
    assert_eq!(scan_number("12+3"), literal_token(Literal::DecimalInteger, 2));
    assert_eq!(scan_number("1.5 "), literal_token(Literal::DecimalPointNumber, 3));
    assert_eq!(scan_number("0b102"), literal_token(Literal::BinaryInteger, 4));
    assert_eq!(scan_number("0o178"), literal_token(Literal::OctalInteger, 4));
    assert_eq!(scan_number("0x1fg"), literal_token(Literal::HexInteger, 4));
    assert_eq!(scan_number("0xABCDEFabcdef0123456789;"), literal_token(Literal::HexInteger, 24));
    assert_eq!(scan_number("017 "), literal_token(Literal::LegacyOctalInteger, 3));
    assert_eq!(scan_number("1abc"), literal_token(Literal::DecimalInteger, 1));
}

#[test]
fn reader_rests_behind_the_literal() {
    let mut reader = SourceCodeReader::new("0b11_01n+1");
    assert_eq!(tokenize_numeric_literal(&mut reader), literal_token(Literal::BinaryBigInteger, 8));
    assert_eq!(reader.offset(), 8);
    assert_eq!(reader.peek(), Some((8, '+')));
}

#[test]
fn literal_in_the_middle_of_a_source() {
    let mut reader = SourceCodeReader::new("\u{3000}1_2");
    reader.advance();
    assert_eq!(
        tokenize_numeric_literal(&mut reader),
        Ok(Token::new(TokenType::Literal(Literal::DecimalInteger), 3, 6))
    );
}

#[test]
fn decimal_forms() {
    assert_eq!(scan_number(".5"), literal_token(Literal::DecimalPointNumber, 2));
    assert_eq!(scan_number(".5e1"), literal_token(Literal::DecimalPointExponentNumber, 4));
    assert_eq!(scan_number("1."), literal_token(Literal::DecimalPointNumber, 2));
    assert_eq!(scan_number("1.e5"), literal_token(Literal::DecimalPointExponentNumber, 4));
    assert_eq!(scan_number("1e+5"), literal_token(Literal::DecimalExponentNumber, 4));
    assert_eq!(scan_number("1e-5"), literal_token(Literal::DecimalExponentNumber, 4));
    assert_eq!(scan_number("1E+5_0"), literal_token(Literal::DecimalExponentNumber, 6));
    assert_eq!(scan_number("0.5"), literal_token(Literal::DecimalPointNumber, 3));
    assert_eq!(scan_number("0e5"), literal_token(Literal::DecimalExponentNumber, 3));
    assert_eq!(scan_number("0E5"), literal_token(Literal::DecimalExponentNumber, 3));
    assert_eq!(scan_number("00"), literal_token(Literal::DecimalInteger, 2));
    assert_eq!(scan_number("0_1"), literal_token(Literal::DecimalInteger, 3));
    assert_eq!(scan_number("1..2"), literal_token(Literal::DecimalPointNumber, 2));
}

#[test]
fn doubled_separator_fails_at_the_second() {
    assert_eq!(scan_number("1__2"), number_failure(TokenizeErrorKind::InvalidNumericSeparator, 2));
    assert_eq!(scan_number("0x1__2"), number_failure(TokenizeErrorKind::InvalidNumericSeparator, 4));
    assert_eq!(scan_number("1.2__3"), number_failure(TokenizeErrorKind::InvalidNumericSeparator, 4));
    assert_eq!(scan_number("1e2__3"), number_failure(TokenizeErrorKind::InvalidNumericSeparator, 4));
}

#[test]
fn trailing_separator_fails_where_the_digit_is_missing() {
    assert_eq!(scan_number("1_"), number_failure(TokenizeErrorKind::InvalidNumericSeparator, 2));
    assert_eq!(scan_number("1_ "), number_failure(TokenizeErrorKind::InvalidNumericSeparator, 2));
    assert_eq!(scan_number("1_n"), number_failure(TokenizeErrorKind::InvalidNumericSeparator, 2));
    assert_eq!(scan_number("1_.5"), number_failure(TokenizeErrorKind::InvalidNumericSeparator, 2));
    assert_eq!(scan_number("0b1_"), number_failure(TokenizeErrorKind::InvalidNumericSeparator, 4));
    assert_eq!(scan_number("0b1_2"), number_failure(TokenizeErrorKind::InvalidNumericSeparator, 4));
    assert_eq!(scan_number("0o7_8"), number_failure(TokenizeErrorKind::InvalidNumericSeparator, 4));
    assert_eq!(scan_number("0xf_g"), number_failure(TokenizeErrorKind::InvalidNumericSeparator, 4));
}

#[test]
fn leading_separator_fails_on_the_separator() {
    assert_eq!(scan_number("0x_1"), number_failure(TokenizeErrorKind::InvalidNumericSeparator, 2));
    assert_eq!(scan_number("0b_1"), number_failure(TokenizeErrorKind::InvalidNumericSeparator, 2));
    assert_eq!(scan_number("0o_1"), number_failure(TokenizeErrorKind::InvalidNumericSeparator, 2));
    assert_eq!(scan_number("1._5"), number_failure(TokenizeErrorKind::InvalidNumericSeparator, 2));
    assert_eq!(scan_number("1e_5"), number_failure(TokenizeErrorKind::InvalidNumericSeparator, 2));
    assert_eq!(scan_number("1e+_5"), number_failure(TokenizeErrorKind::InvalidNumericSeparator, 3));
}

#[test]
fn radix_prefix_without_digit() {
    assert_eq!(scan_number("0x"), number_failure(TokenizeErrorKind::InvalidNumericLiteral, 2));
    assert_eq!(scan_number("0xg"), number_failure(TokenizeErrorKind::InvalidNumericLiteral, 2));
    assert_eq!(scan_number("0b2"), number_failure(TokenizeErrorKind::InvalidNumericLiteral, 2));
    assert_eq!(scan_number("0o8"), number_failure(TokenizeErrorKind::InvalidNumericLiteral, 2));
    assert_eq!(scan_number("0bn"), number_failure(TokenizeErrorKind::InvalidNumericLiteral, 2));
    assert_eq!(scan_number("0xn"), number_failure(TokenizeErrorKind::InvalidNumericLiteral, 2));
}

#[test]
fn unknown_radix_letter() {
    assert_eq!(scan_number("0S12efn"), number_failure(TokenizeErrorKind::InvalidNumericLiteral, 1));
    assert_eq!(scan_number("0a"), number_failure(TokenizeErrorKind::InvalidNumericLiteral, 1));
    assert_eq!(scan_number("0z1"), number_failure(TokenizeErrorKind::InvalidNumericLiteral, 1));
    assert_eq!(scan_number("0$"), literal_token(Literal::DecimalInteger, 1));
    let mut reader = SourceCodeReader::new("0S12");
    assert_eq!(
        tokenize_numeric_literal(&mut reader),
        number_failure(TokenizeErrorKind::InvalidNumericLiteral, 1)
    );
    assert_eq!(reader.offset(), 1);
}

#[test]
fn exponent_without_digit() {
    assert_eq!(scan_number("1e"), number_failure(TokenizeErrorKind::InvalidNumericLiteral, 2));
    assert_eq!(scan_number("1e+"), number_failure(TokenizeErrorKind::InvalidNumericLiteral, 3));
    assert_eq!(scan_number("1ex"), number_failure(TokenizeErrorKind::InvalidNumericLiteral, 2));
    assert_eq!(scan_number("1.5E-"), number_failure(TokenizeErrorKind::InvalidNumericLiteral, 5));
}

#[test]
fn big_integer_suffix_only_on_integers() {
    assert_eq!(scan_number("1.5n"), number_failure(TokenizeErrorKind::InvalidNumericLiteral, 3));
    assert_eq!(scan_number("1e5n"), number_failure(TokenizeErrorKind::InvalidNumericLiteral, 3));
    assert_eq!(scan_number(".5n"), number_failure(TokenizeErrorKind::InvalidNumericLiteral, 2));
    assert_eq!(scan_number("1.n"), number_failure(TokenizeErrorKind::InvalidNumericLiteral, 2));
}

#[test]
fn legacy_octal_takes_no_separator_and_no_suffix() {
    assert_eq!(scan_number("01_2"), number_failure(TokenizeErrorKind::InvalidNumericSeparator, 2));
    assert_eq!(scan_number("017n"), number_failure(TokenizeErrorKind::InvalidNumericLiteral, 3));
    assert_eq!(scan_number("018n"), number_failure(TokenizeErrorKind::InvalidNumericLiteral, 3));
    assert_eq!(scan_number("09"), literal_token(Literal::DecimalInteger, 2));
    assert_eq!(scan_number("07"), literal_token(Literal::LegacyOctalInteger, 2));
    assert_eq!(scan_number("0107"), literal_token(Literal::LegacyOctalInteger, 4));
    assert_eq!(scan_number("0190"), literal_token(Literal::DecimalInteger, 4));
}

#[test]
fn numeric_scanner_started_elsewhere() {
    assert_eq!(scan_number(""), number_failure(TokenizeErrorKind::UnexpectedEndOfInput, 0));
    assert_eq!(scan_number("abc"), number_failure(TokenizeErrorKind::InvalidNumericLiteral, 0));
    assert_eq!(scan_number("."), number_failure(TokenizeErrorKind::InvalidNumericLiteral, 0));
    assert_eq!(scan_number(".a"), number_failure(TokenizeErrorKind::InvalidNumericLiteral, 0));
    assert_eq!(scan_number("_1"), number_failure(TokenizeErrorKind::InvalidNumericLiteral, 0));
}

/// A reader over `source` that has consumed the first character.
fn behind_zero(source: &str) -> SourceCodeReader<'_> {
    let mut reader = SourceCodeReader::new(source);
    reader.advance();
    reader
}

#[test]
fn radix_scanners_span_from_the_zero() {
    let mut reader = behind_zero("0O12_67n");
    assert_eq!(
        tokenize_octal_number_literal(&mut reader),
        literal_token(Literal::OctalBigInteger, 8)
    );
    assert_eq!(reader.offset(), 8);
    let mut reader = behind_zero("0x12_ef");
    assert_eq!(tokenize_hex_number_literal(&mut reader), literal_token(Literal::HexInteger, 7));
    let mut reader = behind_zero("0b1");
    assert_eq!(
        tokenize_binary_number_literal(&mut reader),
        literal_token(Literal::BinaryInteger, 3)
    );
    let mut reader = behind_zero("0B11_01n+1");
    assert_eq!(
        tokenize_binary_number_literal(&mut reader),
        literal_token(Literal::BinaryBigInteger, 8)
    );
    assert_eq!(reader.peek(), Some((8, '+')));
    let mut reader = behind_zero("0XfFn");
    assert_eq!(
        tokenize_radix_number_literal(&mut reader, Radix::Hex),
        literal_token(Literal::HexBigInteger, 5)
    );
}

#[test]
fn radix_scanner_in_the_middle_of_a_source() {
    let mut reader = SourceCodeReader::new("é=0o17;");
    reader.advance_by(3);
    assert_eq!(reader.previous(), Some((3, '0')));
    assert_eq!(
        tokenize_octal_number_literal(&mut reader),
        Ok(Token::new(TokenType::Literal(Literal::OctalInteger), 3, 7))
    );
    assert_eq!(reader.peek(), Some((7, ';')));
}

#[test]
fn radix_scanners_fail_where_the_digit_is_missing() {
    let mut reader = behind_zero("0b_1");
    assert_eq!(
        tokenize_binary_number_literal(&mut reader),
        number_failure(TokenizeErrorKind::InvalidNumericSeparator, 2)
    );
    assert_eq!(reader.offset(), 2);
    let mut reader = behind_zero("0bn");
    assert_eq!(
        tokenize_binary_number_literal(&mut reader),
        number_failure(TokenizeErrorKind::InvalidNumericLiteral, 2)
    );
    let mut reader = behind_zero("0x");
    assert_eq!(
        tokenize_hex_number_literal(&mut reader),
        number_failure(TokenizeErrorKind::InvalidNumericLiteral, 2)
    );
    let mut reader = behind_zero("0o7__1");
    assert_eq!(
        tokenize_octal_number_literal(&mut reader),
        number_failure(TokenizeErrorKind::InvalidNumericSeparator, 4)
    );
}

#[test]
fn radix_scanners_check_their_prefix() {
    let mut reader = behind_zero("0x1f");
    assert_eq!(
        tokenize_binary_number_literal(&mut reader),
        number_failure(TokenizeErrorKind::InvalidNumericLiteral, 1)
    );
    assert_eq!(reader.offset(), 1);
    assert_eq!(
        tokenize_octal_number_literal(&mut reader),
        number_failure(TokenizeErrorKind::InvalidNumericLiteral, 1)
    );
    assert_eq!(tokenize_hex_number_literal(&mut reader), literal_token(Literal::HexInteger, 4));
    assert_eq!(
        tokenize_hex_number_literal(&mut reader),
        number_failure(TokenizeErrorKind::UnexpectedEndOfInput, 4)
    );
    let mut reader = behind_zero("1x1");
    assert_eq!(
        tokenize_hex_number_literal(&mut reader),
        number_failure(TokenizeErrorKind::InvalidNumericLiteral, 1)
    );
    let mut reader = behind_zero("012");
    assert_eq!(
        tokenize_radix_number_literal(&mut reader, Radix::Decimal),
        number_failure(TokenizeErrorKind::InvalidNumericLiteral, 1)
    );
}

#[test]
fn radix_scanners_entered_on_the_zero_are_misplaced() {
    let mut reader = SourceCodeReader::new("0x1f");
    assert_eq!(
        tokenize_hex_number_literal(&mut reader),
        number_failure(TokenizeErrorKind::InvalidNumericLiteral, 0)
    );
    assert_eq!(reader.offset(), 0);
    let mut reader = SourceCodeReader::new("x1f");
    assert_eq!(
        tokenize_hex_number_literal(&mut reader),
        number_failure(TokenizeErrorKind::InvalidNumericLiteral, 0)
    );
    let mut reader = SourceCodeReader::new("017");
    assert_eq!(
        tokenize_legacy_octal_number_literal(&mut reader),
        number_failure(TokenizeErrorKind::InvalidNumericLiteral, 0)
    );
}

#[test]
fn legacy_octal_scanner_spans_from_the_zero() {
    let mut reader = behind_zero("01267");
    assert_eq!(
        tokenize_legacy_octal_number_literal(&mut reader),
        literal_token(Literal::LegacyOctalInteger, 5)
    );
    assert_eq!(reader.offset(), 5);
    let mut reader = behind_zero("01268");
    assert_eq!(
        tokenize_legacy_octal_number_literal(&mut reader),
        literal_token(Literal::DecimalInteger, 5)
    );
    let mut reader = behind_zero("09;");
    assert_eq!(
        tokenize_legacy_octal_number_literal(&mut reader),
        literal_token(Literal::DecimalInteger, 2)
    );
    assert_eq!(reader.peek(), Some((2, ';')));
    let mut reader = SourceCodeReader::new("é 0107 ");
    reader.advance_by(3);
    assert_eq!(
        tokenize_legacy_octal_number_literal(&mut reader),
        Ok(Token::new(TokenType::Literal(Literal::LegacyOctalInteger), 3, 7))
    );
}

#[test]
fn legacy_octal_scanner_refuses_separator_and_suffix() {
    let mut reader = behind_zero("01_2");
    assert_eq!(
        tokenize_legacy_octal_number_literal(&mut reader),
        number_failure(TokenizeErrorKind::InvalidNumericSeparator, 2)
    );
    assert_eq!(reader.offset(), 2);
    let mut reader = behind_zero("017n");
    assert_eq!(
        tokenize_legacy_octal_number_literal(&mut reader),
        number_failure(TokenizeErrorKind::InvalidNumericLiteral, 3)
    );
}

#[test]
fn decimal_and_legacy_scanners_check_their_start() {
    let mut reader = SourceCodeReader::new("x1");
    assert_eq!(
        tokenize_decimal_number_literal(&mut reader),
        number_failure(TokenizeErrorKind::InvalidNumericLiteral, 0)
    );
    let mut reader = behind_zero("x1");
    assert_eq!(
        tokenize_legacy_octal_number_literal(&mut reader),
        number_failure(TokenizeErrorKind::InvalidNumericLiteral, 1)
    );
    let mut reader = behind_zero("00");
    assert_eq!(
        tokenize_legacy_octal_number_literal(&mut reader),
        number_failure(TokenizeErrorKind::InvalidNumericLiteral, 1)
    );
    let mut reader = behind_zero("0");
    assert_eq!(
        tokenize_legacy_octal_number_literal(&mut reader),
        number_failure(TokenizeErrorKind::UnexpectedEndOfInput, 1)
    );
    let mut reader = SourceCodeReader::new("0x1");
    assert_eq!(
        tokenize_decimal_number_literal(&mut reader),
        literal_token(Literal::DecimalInteger, 1)
    );
}

#[test]
fn digits_by_radix() {
    assert!(digit_of(Radix::Binary, '1'));
    assert!(!digit_of(Radix::Binary, '2'));
    assert!(digit_of(Radix::Octal, '7'));
    assert!(!digit_of(Radix::Octal, '8'));
    assert!(digit_of(Radix::Decimal, '9'));
    assert!(!digit_of(Radix::Decimal, 'a'));
    assert!(digit_of(Radix::Hex, 'f'));
    assert!(digit_of(Radix::Hex, 'A'));
    assert!(!digit_of(Radix::Hex, 'g'));
    assert!(!digit_of(Radix::Hex, '_'));
}
