use vstd::prelude::*;
use crate::ast::reader_struct::SourceCodeReader;
use crate::character_patterns::is_decimal_digit;
use crate::token::structs::error::{TokenizeError, TokenizeErrorKind};
use crate::token::structs::literal::Literal;
use crate::token::structs::token::{Token, TokenType};
use crate::token::tokenize::{
    byte_offset, char_at, lemma_byte_offset_monotonic, misplaced, scanned, scanned_behind, Scan,
};

verus! {

/// The radix of the digits of a numeric literal.
#[derive(PartialEq, Eq, Debug, Clone, Copy, Structural)]
pub enum Radix {
    Binary,
    Octal,
    Decimal,
    Hex,
}

/// `c` is a digit in `radix`.
pub open spec fn is_digit_of(radix: Radix, c: char) -> bool {
    match radix {
        Radix::Binary => c == '0' || c == '1',
        Radix::Octal => '0' <= c && c <= '7',
        Radix::Decimal => is_decimal_digit(c),
        Radix::Hex => is_decimal_digit(c) || ('a' <= c && c <= 'f') || ('A' <= c && c <= 'F'),
    }
}

/// `c` is the letter that, behind a `0`, announces digits in `radix`.
/// Decimal digits have no such letter.
pub open spec fn is_radix_prefix(radix: Radix, c: char) -> bool {
    match radix {
        Radix::Binary => c == 'b' || c == 'B',
        Radix::Octal => c == 'o' || c == 'O',
        Radix::Decimal => false,
        Radix::Hex => c == 'x' || c == 'X',
    }
}

/// The kind of a literal with a radix prefix, without and with the `n`
/// that makes it a big integer.
pub open spec fn radix_kind(radix: Radix, big: bool) -> Literal {
    match radix {
        Radix::Binary => if big {
            Literal::BinaryBigInteger
        } else {
            Literal::BinaryInteger
        },
        Radix::Octal => if big {
            Literal::OctalBigInteger
        } else {
            Literal::OctalInteger
        },
        Radix::Decimal => if big {
            Literal::DecimalBigInteger
        } else {
            Literal::DecimalInteger
        },
        Radix::Hex => if big {
            Literal::HexBigInteger
        } else {
            Literal::HexInteger
        },
    }
}

/// The kind of a decimal literal by the parts it has.
pub open spec fn decimal_kind(has_point: bool, has_exponent: bool) -> Literal {
    if has_point && has_exponent {
        Literal::DecimalPointExponentNumber
    } else if has_point {
        Literal::DecimalPointNumber
    } else if has_exponent {
        Literal::DecimalExponentNumber
    } else {
        Literal::DecimalInteger
    }
}

/// What there is of a part of a numeric literal. Positions count code
/// points.
pub enum DigitRun {
    /// The part ends before `end`.
    Ends { end: int },
    /// The part is broken: this failure, found at `at`.
    Breaks { kind: TokenizeErrorKind, at: int },
}

/// A run of digits, from behind one of its digits on. Digits go on it; a
/// `_` goes on it if a digit follows, and breaks it if none does: the
/// failure is found behind the `_`, where the digit is missing. Anything
/// else ends the run.
pub open spec fn digits_rest(text: Seq<char>, from: int, radix: Radix) -> DigitRun
    decreases text.len() - from,
{
    if 0 <= from < text.len() && is_digit_of(radix, text[from]) {
        digits_rest(text, from + 1, radix)
    } else if 0 <= from < text.len() && text[from] == '_' {
        if from + 1 < text.len() && is_digit_of(radix, text[from + 1]) {
            digits_rest(text, from + 2, radix)
        } else {
            DigitRun::Breaks { kind: TokenizeErrorKind::InvalidNumericSeparator, at: from + 1 }
        }
    } else {
        DigitRun::Ends { end: from }
    }
}

/// A run of digits that has to be there. It begins with a digit: a `_` in
/// its place is a misplaced separator, anything else a malformed literal.
pub open spec fn digits(text: Seq<char>, from: int, radix: Radix) -> DigitRun {
    match char_at(text, from) {
        Some(c) => if is_digit_of(radix, c) {
            digits_rest(text, from + 1, radix)
        } else if c == '_' {
            DigitRun::Breaks { kind: TokenizeErrorKind::InvalidNumericSeparator, at: from }
        } else {
            DigitRun::Breaks { kind: TokenizeErrorKind::InvalidNumericLiteral, at: from }
        },
        None => DigitRun::Breaks { kind: TokenizeErrorKind::InvalidNumericLiteral, at: from },
    }
}

/// The fraction of a decimal literal: a `.` and the digits behind it, if a
/// `.` stands at `from`. The digits may be missing, a `_` may not stand in
/// their place.
pub open spec fn fraction(text: Seq<char>, from: int) -> DigitRun {
    if char_at(text, from) == Some('.') {
        match char_at(text, from + 1) {
            Some(c) => if is_decimal_digit(c) {
                digits_rest(text, from + 2, Radix::Decimal)
            } else if c == '_' {
                DigitRun::Breaks { kind: TokenizeErrorKind::InvalidNumericSeparator, at: from + 1 }
            } else {
                DigitRun::Ends { end: from + 1 }
            },
            None => DigitRun::Ends { end: from + 1 },
        }
    } else {
        DigitRun::Ends { end: from }
    }
}

/// `c` opens the exponent of a decimal literal.
pub open spec fn is_exponent_mark(c: Option<char>) -> bool {
    c == Some('e') || c == Some('E')
}

/// The exponent of a decimal literal: `e` or `E`, a sign or none, and
/// digits that have to be there, if `e` or `E` stands at `from`.
pub open spec fn exponent(text: Seq<char>, from: int) -> DigitRun {
    if is_exponent_mark(char_at(text, from)) {
        if char_at(text, from + 1) == Some('+') || char_at(text, from + 1) == Some('-') {
            digits(text, from + 2, Radix::Decimal)
        } else {
            digits(text, from + 1, Radix::Decimal)
        }
    } else {
        DigitRun::Ends { end: from }
    }
}

/// What follows the exponent of a decimal literal, or stands where it
/// would: `n` makes a literal without point and exponent a big integer and
/// is refused behind any other.
pub open spec fn decimal_suffix(
    text: Seq<char>,
    from: int,
    has_point: bool,
    has_exponent: bool,
) -> Scan {
    if char_at(text, from) == Some('n') {
        if !has_point && !has_exponent {
            Scan::Lexeme {
                token_type: TokenType::Literal(Literal::DecimalBigInteger),
                end: from + 1,
            }
        } else {
            Scan::Failure { kind: TokenizeErrorKind::InvalidNumericLiteral, at: from }
        }
    } else {
        Scan::Lexeme {
            token_type: TokenType::Literal(decimal_kind(has_point, has_exponent)),
            end: from,
        }
    }
}

/// The integer part of a decimal literal: the run of digits that begins
/// at `at`, or nothing where the literal begins with its `.`.
pub open spec fn integer_part(text: Seq<char>, at: int) -> DigitRun {
    if char_at(text, at) == Some('.') {
        DigitRun::Ends { end: at }
    } else {
        digits_rest(text, at + 1, Radix::Decimal)
    }
}

/// A decimal literal can begin at `at`: with a digit, or with a `.` that a
/// digit follows.
pub open spec fn decimal_starts(text: Seq<char>, at: int) -> bool {
    match char_at(text, at) {
        Some(c) => is_decimal_digit(c) || (c == '.' && match char_at(text, at + 1) {
            Some(d) => is_decimal_digit(d),
            None => false,
        }),
        None => false,
    }
}

/// A decimal literal: an integer part, a fraction, an exponent and a
/// suffix, of which only the integer part or the fraction has to be there.
pub open spec fn decimal_scan(text: Seq<char>, at: int) -> Scan {
    if !decimal_starts(text, at) {
        Scan::misplaced(text, at, TokenizeErrorKind::InvalidNumericLiteral)
    } else {
        match integer_part(text, at) {
            DigitRun::Breaks { kind, at } => Scan::Failure { kind, at },
            DigitRun::Ends { end: point } => match fraction(text, point) {
                DigitRun::Breaks { kind, at } => Scan::Failure { kind, at },
                DigitRun::Ends { end: mark } => match exponent(text, mark) {
                    DigitRun::Breaks { kind, at } => Scan::Failure { kind, at },
                    DigitRun::Ends { end } => decimal_suffix(
                        text,
                        end,
                        char_at(text, point) == Some('.'),
                        is_exponent_mark(char_at(text, mark)),
                    ),
                },
            },
        }
    }
}

/// A literal with a radix prefix: `0`, the letter of the radix, digits
/// that have to be there, and `n` or nothing.
pub open spec fn radix_scan(text: Seq<char>, at: int, radix: Radix) -> Scan {
    if char_at(text, at) == Some('0') && (match char_at(text, at + 1) {
        Some(c) => is_radix_prefix(radix, c),
        None => false,
    }) {
        match digits(text, at + 2, radix) {
            DigitRun::Breaks { kind, at } => Scan::Failure { kind, at },
            DigitRun::Ends { end } => if char_at(text, end) == Some('n') {
                Scan::Lexeme {
                    token_type: TokenType::Literal(radix_kind(radix, true)),
                    end: end + 1,
                }
            } else {
                Scan::Lexeme { token_type: TokenType::Literal(radix_kind(radix, false)), end }
            },
        }
    } else {
        Scan::misplaced(text, at, TokenizeErrorKind::InvalidNumericLiteral)
    }
}

/// What a radix scanner finds. It is entered at `at`, behind the `0` of
/// the literal and on the letter of the radix: the literal is read from
/// its `0`. Entered anywhere else, it is misplaced.
pub open spec fn radix_entered(text: Seq<char>, at: int, radix: Radix) -> Scan {
    if char_at(text, at - 1) == Some('0') && (match char_at(text, at) {
        Some(c) => is_radix_prefix(radix, c),
        None => false,
    }) {
        radix_scan(text, at - 1, radix)
    } else {
        Scan::misplaced(text, at, TokenizeErrorKind::InvalidNumericLiteral)
    }
}

/// The end of the run of decimal digits that holds `from`.
pub open spec fn decimal_digits_end(text: Seq<char>, from: int) -> int
    decreases text.len() - from,
{
    if 0 <= from < text.len() && is_decimal_digit(text[from]) {
        decimal_digits_end(text, from + 1)
    } else {
        from
    }
}

/// Every character of the text from `from` to before `to` is an octal
/// digit.
pub open spec fn all_octal(text: Seq<char>, from: int, to: int) -> bool {
    forall|i: int| from <= i < to ==> is_digit_of(Radix::Octal, #[trigger] text[i])
}

/// A literal that begins with `0` and a digit from `1` to `9`: the whole
/// run of decimal digits. It is a legacy octal integer if all its digits
/// are octal and a decimal integer if one is `8` or `9`. It takes neither
/// separators nor the `n` of a big integer.
pub open spec fn legacy_octal_scan(text: Seq<char>, at: int) -> Scan {
    if char_at(text, at) == Some('0') && (match char_at(text, at + 1) {
        Some(c) => '1' <= c && c <= '9',
        None => false,
    }) {
        let end = decimal_digits_end(text, at + 1);
        if char_at(text, end) == Some('_') {
            Scan::Failure { kind: TokenizeErrorKind::InvalidNumericSeparator, at: end }
        } else if char_at(text, end) == Some('n') {
            Scan::Failure { kind: TokenizeErrorKind::InvalidNumericLiteral, at: end }
        } else if all_octal(text, at, end) {
            Scan::Lexeme { token_type: TokenType::Literal(Literal::LegacyOctalInteger), end }
        } else {
            Scan::Lexeme { token_type: TokenType::Literal(Literal::DecimalInteger), end }
        }
    } else {
        Scan::misplaced(text, at, TokenizeErrorKind::InvalidNumericLiteral)
    }
}

/// What the legacy octal scanner finds. It is entered at `at`, behind the
/// `0` of the literal and on the digit from `1` to `9` that follows it:
/// the literal is read from its `0`. Entered anywhere else, it is
/// misplaced.
pub open spec fn legacy_octal_entered(text: Seq<char>, at: int) -> Scan {
    if char_at(text, at - 1) == Some('0') && (match char_at(text, at) {
        Some(c) => '1' <= c && c <= '9',
        None => false,
    }) {
        legacy_octal_scan(text, at - 1)
    } else {
        Scan::misplaced(text, at, TokenizeErrorKind::InvalidNumericLiteral)
    }
}

/// `c` is an ASCII letter.
pub open spec fn is_ascii_letter(c: char) -> bool {
    ('a' <= c && c <= 'z') || ('A' <= c && c <= 'Z')
}

/// What the numeric literal scanner finds.
///
/// Behind a first `0`, the letter of a radix opens a literal in that radix
/// and a digit from `1` to `9` a legacy octal literal; any other letter but
/// the `e`, `E` and `n` of the decimal forms is no radix and fails where it
/// stands. Everything else is read as a decimal literal.
pub open spec fn numeric_literal_scan(text: Seq<char>, at: int) -> Scan {
    if char_at(text, at) == Some('0') && char_at(text, at + 1) is Some {
        let c = text[at + 1];
        if is_radix_prefix(Radix::Binary, c) {
            radix_scan(text, at, Radix::Binary)
        } else if is_radix_prefix(Radix::Octal, c) {
            radix_scan(text, at, Radix::Octal)
        } else if is_radix_prefix(Radix::Hex, c) {
            radix_scan(text, at, Radix::Hex)
        } else if '1' <= c && c <= '9' {
            legacy_octal_scan(text, at)
        } else if is_ascii_letter(c) && c != 'e' && c != 'E' && c != 'n' {
            Scan::Failure { kind: TokenizeErrorKind::InvalidNumericLiteral, at: at + 1 }
        } else {
            decimal_scan(text, at)
        }
    } else {
        decimal_scan(text, at)
    }
}

/// A run of digits ends or breaks at or behind the place it was looked for.
pub proof fn lemma_digits_rest_bounds(text: Seq<char>, from: int, radix: Radix)
    requires
        0 <= from <= text.len(),
    ensures
        match digits_rest(text, from, radix) {
            DigitRun::Ends { end } => from <= end <= text.len(),
            DigitRun::Breaks { at, .. } => from < at <= text.len(),
        },
    decreases text.len() - from,
{
    if from < text.len() && is_digit_of(radix, text[from]) {
        lemma_digits_rest_bounds(text, from + 1, radix);
    } else if from < text.len() && text[from] == '_' {
        if from + 1 < text.len() && is_digit_of(radix, text[from + 1]) {
            lemma_digits_rest_bounds(text, from + 2, radix);
        }
    }
}

/// The character at `index` has its place in a run of digits that ends
/// before `to`: it is a digit, or a `_` between two digits of the run.
pub open spec fn fits_run(text: Seq<char>, index: int, to: int, radix: Radix) -> bool {
    ||| is_digit_of(radix, text[index])
    ||| {
        &&& text[index] == '_'
        &&& is_digit_of(radix, text[index - 1])
        &&& index + 1 < to
        &&& is_digit_of(radix, text[index + 1])
    }
}

/// What `digits_rest` reads behind a digit is a run of digits in which
/// every `_` stands between two digits. Where the run ends, neither a
/// digit nor a `_` follows it. Where it breaks, it breaks behind a `_`
/// that no digit follows.
pub proof fn lemma_digits_rest_is_separated(text: Seq<char>, from: int, radix: Radix)
    requires
        0 < from <= text.len(),
        is_digit_of(radix, text[from - 1]),
    ensures
        match digits_rest(text, from, radix) {
            DigitRun::Ends { end } => {
                &&& from <= end <= text.len()
                &&& forall|i: int| from <= i < end ==> #[trigger] fits_run(text, i, end, radix)
                &&& end < text.len() ==> !is_digit_of(radix, text[end]) && text[end] != '_'
            },
            DigitRun::Breaks { kind, at } => {
                &&& kind == TokenizeErrorKind::InvalidNumericSeparator
                &&& from < at <= text.len()
                &&& forall|i: int|
                    from <= i < at - 1 ==> #[trigger] fits_run(text, i, at - 1, radix)
                &&& text[at - 1] == '_'
                &&& is_digit_of(radix, text[at - 2])
                &&& at < text.len() ==> !is_digit_of(radix, text[at])
            },
        },
    decreases text.len() - from,
{
    if from < text.len() && is_digit_of(radix, text[from]) {
        lemma_digits_rest_is_separated(text, from + 1, radix);
        match digits_rest(text, from, radix) {
            DigitRun::Ends { end } => {
                assert forall|i: int| from <= i < end implies #[trigger] fits_run(
                    text,
                    i,
                    end,
                    radix,
                ) by {
                    if i > from {
                        assert(fits_run(text, i, end, radix));
                    }
                }
            },
            DigitRun::Breaks { at, .. } => {
                assert forall|i: int| from <= i < at - 1 implies #[trigger] fits_run(
                    text,
                    i,
                    at - 1,
                    radix,
                ) by {
                    if i > from {
                        assert(fits_run(text, i, at - 1, radix));
                    }
                }
            },
        }
    } else if from < text.len() && text[from] == '_' {
        if from + 1 < text.len() && is_digit_of(radix, text[from + 1]) {
            lemma_digits_rest_is_separated(text, from + 2, radix);
            match digits_rest(text, from, radix) {
                DigitRun::Ends { end } => {
                    assert forall|i: int| from <= i < end implies #[trigger] fits_run(
                        text,
                        i,
                        end,
                        radix,
                    ) by {
                        if i > from + 1 {
                            assert(fits_run(text, i, end, radix));
                        }
                    }
                },
                DigitRun::Breaks { at, .. } => {
                    assert forall|i: int| from <= i < at - 1 implies #[trigger] fits_run(
                        text,
                        i,
                        at - 1,
                        radix,
                    ) by {
                        if i > from + 1 {
                            assert(fits_run(text, i, at - 1, radix));
                        }
                    }
                },
            }
        }
    }
}

/// The run that `decimal_digits_end` closes holds decimal digits only, and
/// what follows it is none.
pub proof fn lemma_decimal_digits_end(text: Seq<char>, from: int)
    requires
        0 <= from <= text.len(),
    ensures
        from <= decimal_digits_end(text, from) <= text.len(),
        forall|i: int|
            from <= i < decimal_digits_end(text, from) ==> is_decimal_digit(#[trigger] text[i]),
        decimal_digits_end(text, from) < text.len() ==> !is_decimal_digit(
            text[decimal_digits_end(text, from)],
        ),
    decreases text.len() - from,
{
    if from < text.len() && is_decimal_digit(text[from]) {
        lemma_decimal_digits_end(text, from + 1);
    }
}

/// A numeric literal is a literal and not empty, and a failure lies at or
/// behind the place where the scanner started, within the text.
pub proof fn lemma_numeric_literal_scan_bounds(text: Seq<char>, at: int)
    requires
        0 <= at < text.len(),
    ensures
        match numeric_literal_scan(text, at) {
            Scan::Lexeme { token_type, end } => token_type is Literal && at < end <= text.len(),
            Scan::Failure { at: place, .. } => at <= place <= text.len(),
        },
{
    lemma_digits_rest_bounds(text, at + 1, Radix::Decimal);
    lemma_decimal_digits_end(text, at + 1);
    if at + 2 <= text.len() {
        lemma_digits_rest_bounds(text, at + 2, Radix::Decimal);
        if at + 3 <= text.len() {
            lemma_digits_rest_bounds(text, at + 3, Radix::Binary);
            lemma_digits_rest_bounds(text, at + 3, Radix::Octal);
            lemma_digits_rest_bounds(text, at + 3, Radix::Hex);
        }
    }
    if decimal_starts(text, at) {
        match integer_part(text, at) {
            DigitRun::Ends { end: point } => {
                if point + 2 <= text.len() {
                    lemma_digits_rest_bounds(text, point + 2, Radix::Decimal);
                }
                match fraction(text, point) {
                    DigitRun::Ends { end: mark } => {
                        if mark + 2 <= text.len() {
                            lemma_digits_rest_bounds(text, mark + 2, Radix::Decimal);
                        }
                        if mark + 3 <= text.len() {
                            lemma_digits_rest_bounds(text, mark + 3, Radix::Decimal);
                        }
                    },
                    _ => {},
                }
            },
            _ => {},
        }
    }
}

/// The radix of the digits of a literal of this kind.
pub open spec fn radix_of(kind: Literal) -> Radix {
    match kind {
        Literal::BinaryInteger | Literal::BinaryBigInteger => Radix::Binary,
        Literal::OctalInteger | Literal::OctalBigInteger => Radix::Octal,
        Literal::HexInteger | Literal::HexBigInteger => Radix::Hex,
        _ => Radix::Decimal,
    }
}

/// The character at `index` stands between two digits of the lexeme that
/// goes from `from` to before `to`.
pub open spec fn between_digits(
    text: Seq<char>,
    index: int,
    from: int,
    to: int,
    radix: Radix,
) -> bool {
    &&& from < index
    &&& index + 1 < to
    &&& is_digit_of(radix, text[index - 1])
    &&& is_digit_of(radix, text[index + 1])
}

/// In a decimal literal every `_` stands between two decimal digits of the
/// literal.
pub proof fn lemma_decimal_separators(text: Seq<char>, at: int)
    requires
        0 <= at < text.len(),
    ensures
        decimal_scan(text, at) matches Scan::Lexeme { end, .. } ==> forall|i: int|
            at <= i < end && text[i] == '_' ==> #[trigger] between_digits(
                text,
                i,
                at,
                end,
                Radix::Decimal,
            ),
{
    if let Scan::Lexeme { end, .. } = decimal_scan(text, at) {
        let point = integer_part(text, at)->end;
        let mark = fraction(text, point)->end;
        let last = exponent(text, mark)->end;
        let digits_from = if char_at(text, mark + 1) == Some('+') || char_at(text, mark + 1)
            == Some('-') {
            mark + 2
        } else {
            mark + 1
        };
        lemma_digits_rest_bounds(text, at + 1, Radix::Decimal);
        if text[at] != '.' {
            lemma_digits_rest_is_separated(text, at + 1, Radix::Decimal);
        }
        if point + 2 <= text.len() {
            lemma_digits_rest_bounds(text, point + 2, Radix::Decimal);
        }
        if mark > point + 1 {
            lemma_digits_rest_is_separated(text, point + 2, Radix::Decimal);
        }
        if mark + 2 <= text.len() {
            lemma_digits_rest_bounds(text, mark + 2, Radix::Decimal);
        }
        if mark + 3 <= text.len() {
            lemma_digits_rest_bounds(text, mark + 3, Radix::Decimal);
        }
        if last > mark {
            lemma_digits_rest_is_separated(text, digits_from + 1, Radix::Decimal);
        }
        assert forall|i: int| at <= i < end && text[i] == '_' implies #[trigger] between_digits(
            text,
            i,
            at,
            end,
            Radix::Decimal,
        ) by {
            if i < point {
                assert(fits_run(text, i, point, Radix::Decimal));
            } else if i < mark {
                assert(fits_run(text, i, mark, Radix::Decimal));
            } else if i < last {
                assert(fits_run(text, i, last, Radix::Decimal));
            }
        }
    }
}

/// In a literal with a radix prefix every `_` stands between two digits of
/// the literal, in its radix.
pub proof fn lemma_radix_separators(text: Seq<char>, at: int, radix: Radix)
    requires
        0 <= at < text.len(),
    ensures
        radix_scan(text, at, radix) matches Scan::Lexeme { end, .. } ==> forall|i: int|
            at <= i < end && text[i] == '_' ==> #[trigger] between_digits(text, i, at, end, radix),
{
    if let Scan::Lexeme { end, .. } = radix_scan(text, at, radix) {
        let last = digits(text, at + 2, radix)->end;
        lemma_digits_rest_bounds(text, at + 3, radix);
        lemma_digits_rest_is_separated(text, at + 3, radix);
        assert forall|i: int| at <= i < end && text[i] == '_' implies #[trigger] between_digits(
            text,
            i,
            at,
            end,
            radix,
        ) by {
            if at + 3 <= i < last {
                assert(fits_run(text, i, last, radix));
            }
        }
    }
}

/// In a numeric literal every `_` stands between two digits of the
/// literal, in the radix of its kind: none stands before the first digit
/// or behind the last, and no two stand side by side.
pub proof fn lemma_numeric_literal_separators(text: Seq<char>, at: int)
    requires
        0 <= at < text.len(),
    ensures
        numeric_literal_scan(text, at) matches Scan::Lexeme {
            token_type: TokenType::Literal(kind),
            end,
        } ==> forall|i: int|
            at <= i < end && text[i] == '_' ==> #[trigger] between_digits(
                text,
                i,
                at,
                end,
                radix_of(kind),
            ),
{
    lemma_decimal_separators(text, at);
    lemma_radix_separators(text, at, Radix::Binary);
    lemma_radix_separators(text, at, Radix::Octal);
    lemma_radix_separators(text, at, Radix::Hex);
    lemma_decimal_digits_end(text, at + 1);
    if let Scan::Lexeme { token_type: TokenType::Literal(kind), end } = numeric_literal_scan(
        text,
        at,
    ) {
        assert forall|i: int| at <= i < end && text[i] == '_' implies #[trigger] between_digits(
            text,
            i,
            at,
            end,
            radix_of(kind),
        ) by {
            assert(between_digits(text, i, at, end, Radix::Decimal) || between_digits(
                text,
                i,
                at,
                end,
                Radix::Binary,
            ) || between_digits(text, i, at, end, Radix::Octal) || between_digits(
                text,
                i,
                at,
                end,
                Radix::Hex,
            ) || is_decimal_digit(text[i]));
        }
    }
}

/// A helper took the reader from `before` to `after` over a part of a
/// literal and returned `result`, and `run` is what there was of the part:
/// the reader rests behind the part or on the place of the failure, and
/// the result is the failure, if there is one.
pub open spec fn ran(
    before: &SourceCodeReader,
    after: &SourceCodeReader,
    result: Result<(), TokenizeError>,
    run: DigitRun,
) -> bool {
    &&& after.text() == before.text()
    &&& match run {
        DigitRun::Ends { end } => result is Ok && after.position() == end,
        DigitRun::Breaks { kind, at } => {
            &&& result matches Err(error)
            &&& error.kind == kind
            &&& error.offset == byte_offset(before.text(), at)
            &&& after.position() == at
        },
    }
}

/// `c` is a digit in `radix`.
pub fn digit_of(radix: Radix, c: char) -> (b: bool)
    ensures
        b == is_digit_of(radix, c),
{
    match radix {
        Radix::Binary => c == '0' || c == '1',
        Radix::Octal => '0' <= c && c <= '7',
        Radix::Decimal => '0' <= c && c <= '9',
        Radix::Hex => ('0' <= c && c <= '9') || ('a' <= c && c <= 'f') || ('A' <= c && c <= 'F'),
    }
}

fn radix_prefix(radix: Radix, c: char) -> (b: bool)
    ensures
        b == is_radix_prefix(radix, c),
{
    match radix {
        Radix::Binary => c == 'b' || c == 'B',
        Radix::Octal => c == 'o' || c == 'O',
        Radix::Decimal => false,
        Radix::Hex => c == 'x' || c == 'X',
    }
}

fn kind_of(radix: Radix, big: bool) -> (kind: Literal)
    ensures
        kind == radix_kind(radix, big),
{
    match radix {
        Radix::Binary => if big {
            Literal::BinaryBigInteger
        } else {
            Literal::BinaryInteger
        },
        Radix::Octal => if big {
            Literal::OctalBigInteger
        } else {
            Literal::OctalInteger
        },
        Radix::Decimal => if big {
            Literal::DecimalBigInteger
        } else {
            Literal::DecimalInteger
        },
        Radix::Hex => if big {
            Literal::HexBigInteger
        } else {
            Literal::HexInteger
        },
    }
}

/// The character at the reader's position, if there is one.
fn current(reader: &SourceCodeReader) -> (c: Option<char>)
    ensures
        c == char_at(reader.text(), reader.position()),
        0 <= reader.position() <= reader.text().len(),
{
    match reader.peek() {
        Some((_, c)) => Some(c),
        None => None,
    }
}

/// The character behind the one at the reader's position, if there is one.
fn following(reader: &SourceCodeReader) -> (c: Option<char>)
    ensures
        c == char_at(reader.text(), reader.position() + 1),
        0 <= reader.position() <= reader.text().len(),
{
    match reader.peek_nth(1) {
        Some((_, c)) => Some(c),
        None => None,
    }
}

/// Reads the rest of a run of digits.
fn scan_digits_rest(reader: &mut SourceCodeReader, radix: Radix) -> (result: Result<
    (),
    TokenizeError,
>)
    ensures
        ran(
            old(reader),
            final(reader),
            result,
            digits_rest(old(reader).text(), old(reader).position(), radix),
        ),
{
    loop
        invariant
            reader.text() == old(reader).text(),
            digits_rest(reader.text(), reader.position(), radix) == digits_rest(
                old(reader).text(),
                old(reader).position(),
                radix,
            ),
        decreases reader.text().len() - reader.position(),
    {
        match current(reader) {
            Some(c) => {
                if digit_of(radix, c) {
                    reader.advance();
                } else if c == '_' {
                    reader.advance();
                    match current(reader) {
                        Some(d) => {
                            if digit_of(radix, d) {
                                reader.advance();
                            } else {
                                let offset = reader.offset();
                                return Err(
                                    TokenizeError::new(
                                        TokenizeErrorKind::InvalidNumericSeparator,
                                        offset,
                                    ),
                                );
                            }
                        },
                        None => {
                            let offset = reader.offset();
                            return Err(
                                TokenizeError::new(
                                    TokenizeErrorKind::InvalidNumericSeparator,
                                    offset,
                                ),
                            );
                        },
                    }
                } else {
                    return Ok(());
                }
            },
            None => {
                return Ok(());
            },
        }
    }
}

/// Reads a run of digits that has to be there.
fn scan_digits(reader: &mut SourceCodeReader, radix: Radix) -> (result: Result<(), TokenizeError>)
    ensures
        ran(
            old(reader),
            final(reader),
            result,
            digits(old(reader).text(), old(reader).position(), radix),
        ),
{
    let offset = reader.offset();
    match current(reader) {
        Some(c) => {
            if digit_of(radix, c) {
                reader.advance();
                scan_digits_rest(reader, radix)
            } else if c == '_' {
                Err(TokenizeError::new(TokenizeErrorKind::InvalidNumericSeparator, offset))
            } else {
                Err(TokenizeError::new(TokenizeErrorKind::InvalidNumericLiteral, offset))
            }
        },
        None => Err(TokenizeError::new(TokenizeErrorKind::InvalidNumericLiteral, offset)),
    }
}

/// Reads the fraction of a decimal literal, if there is one.
fn scan_fraction(reader: &mut SourceCodeReader) -> (result: Result<(), TokenizeError>)
    ensures
        ran(
            old(reader),
            final(reader),
            result,
            fraction(old(reader).text(), old(reader).position()),
        ),
{
    match current(reader) {
        Some('.') => {
            reader.advance();
            let offset = reader.offset();
            match current(reader) {
                Some(c) => {
                    if digit_of(Radix::Decimal, c) {
                        reader.advance();
                        scan_digits_rest(reader, Radix::Decimal)
                    } else if c == '_' {
                        Err(TokenizeError::new(TokenizeErrorKind::InvalidNumericSeparator, offset))
                    } else {
                        Ok(())
                    }
                },
                None => Ok(()),
            }
        },
        _ => Ok(()),
    }
}

fn exponent_mark(c: Option<char>) -> (b: bool)
    ensures
        b == is_exponent_mark(c),
{
    match c {
        Some('e') | Some('E') => true,
        _ => false,
    }
}

/// Reads the exponent of a decimal literal, if there is one.
fn scan_exponent(reader: &mut SourceCodeReader) -> (result: Result<(), TokenizeError>)
    ensures
        ran(
            old(reader),
            final(reader),
            result,
            exponent(old(reader).text(), old(reader).position()),
        ),
{
    if exponent_mark(current(reader)) {
        reader.advance();
        match current(reader) {
            Some('+') | Some('-') => {
                reader.advance();
            },
            _ => {},
        }
        scan_digits(reader, Radix::Decimal)
    } else {
        Ok(())
    }
}

/// Reads a decimal literal.
pub fn tokenize_decimal_number_literal(reader: &mut SourceCodeReader) -> (result: Result<
    Token,
    TokenizeError,
>)
    ensures
        scanned(
            old(reader),
            final(reader),
            result,
            decimal_scan(old(reader).text(), old(reader).position()),
        ),
{
    let start = reader.offset();
    let starts = match current(reader) {
        Some(c) => digit_of(Radix::Decimal, c) || (c == '.' && match following(reader) {
            Some(d) => digit_of(Radix::Decimal, d),
            None => false,
        }),
        None => false,
    };
    if !starts {
        return Err(misplaced(reader, TokenizeErrorKind::InvalidNumericLiteral));
    }
    match current(reader) {
        Some('.') => {},
        _ => {
            reader.advance();
            match scan_digits_rest(reader, Radix::Decimal) {
                Err(error) => {
                    return Err(error);
                },
                Ok(()) => {},
            }
        },
    }
    let has_point = match current(reader) {
        Some('.') => true,
        _ => false,
    };
    match scan_fraction(reader) {
        Err(error) => {
            return Err(error);
        },
        Ok(()) => {},
    }
    let has_exponent = exponent_mark(current(reader));
    match scan_exponent(reader) {
        Err(error) => {
            return Err(error);
        },
        Ok(()) => {},
    }
    let end = reader.offset();
    match current(reader) {
        Some('n') => {
            if !has_point && !has_exponent {
                reader.advance();
                let end = reader.offset();
                Ok(Token::new(TokenType::Literal(Literal::DecimalBigInteger), start, end))
            } else {
                Err(TokenizeError::new(TokenizeErrorKind::InvalidNumericLiteral, end))
            }
        },
        _ => {
            let kind = if has_point && has_exponent {
                Literal::DecimalPointExponentNumber
            } else if has_point {
                Literal::DecimalPointNumber
            } else if has_exponent {
                Literal::DecimalExponentNumber
            } else {
                Literal::DecimalInteger
            };
            Ok(Token::new(TokenType::Literal(kind), start, end))
        },
    }
}

/// The byte offset of the `0` that the reader stands behind, where it
/// stands behind a `0`. The reader does not move.
fn behind_zero(reader: &SourceCodeReader) -> (start: Option<usize>)
    ensures
        start is Some == (char_at(reader.text(), reader.position() - 1) == Some('0')),
        start matches Some(offset) ==> offset == byte_offset(
            reader.text(),
            reader.position() - 1,
        ),
        0 <= reader.position() <= reader.text().len(),
{
    let last = reader.previous();
    proof {
        if reader.position() > 0 {
            lemma_byte_offset_monotonic(
                reader.text(),
                reader.position() - 1,
                reader.text().len() as int,
            );
        }
    }
    match last {
        Some((offset, '0')) => Some(offset),
        _ => None,
    }
}

/// Reads a literal with the prefix of `radix`. The `0` has been consumed
/// and the reader stands on the letter of the radix; the token spans the
/// literal from the `0`.
pub fn tokenize_radix_number_literal(
    reader: &mut SourceCodeReader,
    radix: Radix,
) -> (result: Result<Token, TokenizeError>)
    ensures
        scanned_behind(
            old(reader),
            final(reader),
            result,
            radix_entered(old(reader).text(), old(reader).position(), radix),
        ),
{
    let start = match (behind_zero(reader), current(reader)) {
        (Some(start), Some(c)) => {
            if radix_prefix(radix, c) {
                start
            } else {
                return Err(misplaced(reader, TokenizeErrorKind::InvalidNumericLiteral));
            }
        },
        _ => {
            return Err(misplaced(reader, TokenizeErrorKind::InvalidNumericLiteral));
        },
    };
    reader.advance();
    match scan_digits(reader, radix) {
        Err(error) => {
            return Err(error);
        },
        Ok(()) => {},
    }
    match current(reader) {
        Some('n') => {
            reader.advance();
            let end = reader.offset();
            Ok(Token::new(TokenType::Literal(kind_of(radix, true)), start, end))
        },
        _ => {
            let end = reader.offset();
            Ok(Token::new(TokenType::Literal(kind_of(radix, false)), start, end))
        },
    }
}

/// Reads a binary literal: `0b` or `0B` and binary digits. The `0` has
/// been consumed and the reader stands on the `b`.
pub fn tokenize_binary_number_literal(reader: &mut SourceCodeReader) -> (result: Result<
    Token,
    TokenizeError,
>)
    ensures
        scanned_behind(
            old(reader),
            final(reader),
            result,
            radix_entered(old(reader).text(), old(reader).position(), Radix::Binary),
        ),
{
    tokenize_radix_number_literal(reader, Radix::Binary)
}

/// Reads an octal literal: `0o` or `0O` and octal digits. The `0` has been
/// consumed and the reader stands on the `o`.
pub fn tokenize_octal_number_literal(reader: &mut SourceCodeReader) -> (result: Result<
    Token,
    TokenizeError,
>)
    ensures
        scanned_behind(
            old(reader),
            final(reader),
            result,
            radix_entered(old(reader).text(), old(reader).position(), Radix::Octal),
        ),
{
    tokenize_radix_number_literal(reader, Radix::Octal)
}

/// Reads a hexadecimal literal: `0x` or `0X` and hexadecimal digits. The
/// `0` has been consumed and the reader stands on the `x`.
pub fn tokenize_hex_number_literal(reader: &mut SourceCodeReader) -> (result: Result<
    Token,
    TokenizeError,
>)
    ensures
        scanned_behind(
            old(reader),
            final(reader),
            result,
            radix_entered(old(reader).text(), old(reader).position(), Radix::Hex),
        ),
{
    tokenize_radix_number_literal(reader, Radix::Hex)
}

/// Reads a literal that begins with `0` and a digit from `1` to `9`. The
/// `0` has been consumed and the reader stands on the digit; the token
/// spans the literal from the `0`.
pub fn tokenize_legacy_octal_number_literal(reader: &mut SourceCodeReader) -> (result: Result<
    Token,
    TokenizeError,
>)
    ensures
        scanned_behind(
            old(reader),
            final(reader),
            result,
            legacy_octal_entered(old(reader).text(), old(reader).position()),
        ),
{
    let ghost text = reader.text();
    let ghost at = reader.position() - 1;
    let start = match (behind_zero(reader), current(reader)) {
        (Some(start), Some(c)) => {
            if '1' <= c && c <= '9' {
                start
            } else {
                return Err(misplaced(reader, TokenizeErrorKind::InvalidNumericLiteral));
            }
        },
        _ => {
            return Err(misplaced(reader, TokenizeErrorKind::InvalidNumericLiteral));
        },
    };
    assert(all_octal(text, at, at + 1));
    let mut is_octal = true;
    loop
        invariant
            reader.text() == text,
            at < reader.position() <= text.len(),
            0 <= at,
            decimal_digits_end(text, reader.position()) == decimal_digits_end(text, at + 1),
            is_octal == all_octal(text, at, reader.position()),
        ensures
            reader.text() == text,
            reader.position() == decimal_digits_end(text, at + 1),
            is_octal == all_octal(text, at, reader.position()),
            0 <= reader.position() <= text.len(),
        decreases text.len() - reader.position(),
    {
        match current(reader) {
            Some(c) => {
                if digit_of(Radix::Decimal, c) {
                    let ghost here = reader.position();
                    reader.advance();
                    proof {
                        if is_octal && is_digit_of(Radix::Octal, c) {
                            assert(all_octal(text, at, here + 1));
                        } else if is_octal {
                            assert(!is_digit_of(Radix::Octal, text[here]));
                        } else {
                            let i = choose|i: int|
                                at <= i < here && !is_digit_of(Radix::Octal, #[trigger] text[i]);
                            assert(!is_digit_of(Radix::Octal, text[i]));
                        }
                    }
                    is_octal = is_octal && digit_of(Radix::Octal, c);
                } else {
                    break ;
                }
            },
            None => {
                break ;
            },
        }
    }
    let end = reader.offset();
    match current(reader) {
        Some('_') => Err(TokenizeError::new(TokenizeErrorKind::InvalidNumericSeparator, end)),
        Some('n') => Err(TokenizeError::new(TokenizeErrorKind::InvalidNumericLiteral, end)),
        _ => {
            if is_octal {
                Ok(Token::new(TokenType::Literal(Literal::LegacyOctalInteger), start, end))
            } else {
                Ok(Token::new(TokenType::Literal(Literal::DecimalInteger), start, end))
            }
        },
    }
}

fn ascii_letter(c: char) -> (b: bool)
    ensures
        b == is_ascii_letter(c),
{
    ('a' <= c && c <= 'z') || ('A' <= c && c <= 'Z')
}

/// Reads a numeric literal. Where a radix letter or a digit from `1` to
/// `9` follows a first `0`, the `0` is consumed and the scanner of that
/// form reads on.
pub fn tokenize_numeric_literal(reader: &mut SourceCodeReader) -> (result: Result<
    Token,
    TokenizeError,
>)
    ensures
        scanned(
            old(reader),
            final(reader),
            result,
            numeric_literal_scan(old(reader).text(), old(reader).position()),
        ),
{
    match (current(reader), following(reader)) {
        (Some('0'), Some(c)) => {
            if radix_prefix(Radix::Binary, c) {
                reader.advance();
                tokenize_binary_number_literal(reader)
            } else if radix_prefix(Radix::Octal, c) {
                reader.advance();
                tokenize_octal_number_literal(reader)
            } else if radix_prefix(Radix::Hex, c) {
                reader.advance();
                tokenize_hex_number_literal(reader)
            } else if '1' <= c && c <= '9' {
                reader.advance();
                tokenize_legacy_octal_number_literal(reader)
            } else if ascii_letter(c) && c != 'e' && c != 'E' && c != 'n' {
                reader.advance();
                let offset = reader.offset();
                Err(TokenizeError::new(TokenizeErrorKind::InvalidNumericLiteral, offset))
            } else {
                tokenize_decimal_number_literal(reader)
            }
        },
        _ => tokenize_decimal_number_literal(reader),
    }
}

} // verus!
