//! The character classes that decide which scanner reads the next token.
use vstd::prelude::*;
use crate::token::structs::punctuator::Punctuator;

verus! {

/// The class of a code point. Every code point has exactly one.
#[derive(PartialEq, Eq, Debug, Clone, Copy, Structural)]
pub enum CharacterClass {
    Whitespace,
    LineTerminator,
    /// Opens an operator or a delimiter. `/` and `}` are not in this class:
    /// what they mean depends on where they stand.
    PunctuatorStart,
    DecimalDigit,
    Other,
}

/// Tab, vertical tab, form feed, the byte order mark and the space
/// separators of Unicode.
pub open spec fn is_whitespace(c: char) -> bool {
    ||| c == '\u{0009}'
    ||| c == '\u{000B}'
    ||| c == '\u{000C}'
    ||| c == '\u{FEFF}'
    ||| c == '\u{0020}'
    ||| c == '\u{00A0}'
    ||| c == '\u{1680}'
    ||| ('\u{2000}' <= c && c <= '\u{200A}')
    ||| c == '\u{202F}'
    ||| c == '\u{205F}'
    ||| c == '\u{3000}'
}

/// Line feed, carriage return, line separator and paragraph separator.
pub open spec fn is_line_terminator(c: char) -> bool {
    c == '\u{000A}' || c == '\u{000D}' || c == '\u{2028}' || c == '\u{2029}'
}

/// The characters that open a punctuator, but for `/` and `}`.
pub open spec fn is_punctuator_start(c: char) -> bool {
    ||| c == '{'
    ||| c == '('
    ||| c == ')'
    ||| c == '['
    ||| c == ']'
    ||| c == '.'
    ||| c == ';'
    ||| c == ','
    ||| c == '<'
    ||| c == '>'
    ||| c == '='
    ||| c == '!'
    ||| c == '+'
    ||| c == '-'
    ||| c == '*'
    ||| c == '%'
    ||| c == '&'
    ||| c == '|'
    ||| c == '^'
    ||| c == '~'
    ||| c == '?'
    ||| c == ':'
}

/// `0` to `9`.
pub open spec fn is_decimal_digit(c: char) -> bool {
    '0' <= c && c <= '9'
}

/// The class of `c`.
pub open spec fn class_of(c: char) -> CharacterClass {
    if is_whitespace(c) {
        CharacterClass::Whitespace
    } else if is_line_terminator(c) {
        CharacterClass::LineTerminator
    } else if is_punctuator_start(c) {
        CharacterClass::PunctuatorStart
    } else if is_decimal_digit(c) {
        CharacterClass::DecimalDigit
    } else {
        CharacterClass::Other
    }
}

/// The class of `c`.
pub fn classify(c: char) -> (class: CharacterClass)
    ensures
        class == class_of(c),
{
    match c {
        '\u{0009}' | '\u{000B}' | '\u{000C}' | '\u{FEFF}' | '\u{0020}' | '\u{00A0}' | '\u{1680}'
        | '\u{2000}'..='\u{200A}' | '\u{202F}' | '\u{205F}' | '\u{3000}' => {
            CharacterClass::Whitespace
        },
        '\u{000A}' | '\u{000D}' | '\u{2028}' | '\u{2029}' => CharacterClass::LineTerminator,
        '{' | '(' | ')' | '[' | ']' | '.' | ';' | ',' | '<' | '>' | '=' | '!' | '+' | '-' | '*'
        | '%' | '&' | '|' | '^' | '~' | '?' | ':' => CharacterClass::PunctuatorStart,
        '0'..='9' => CharacterClass::DecimalDigit,
        _ => CharacterClass::Other,
    }
}

/// The four named classes exclude one another, and `/` and `}` are in none
/// of them.
pub proof fn lemma_classes_are_disjoint(c: char)
    ensures
        is_whitespace(c) ==> !is_line_terminator(c) && !is_punctuator_start(c) && !is_decimal_digit(
            c,
        ),
        is_line_terminator(c) ==> !is_punctuator_start(c) && !is_decimal_digit(c),
        is_punctuator_start(c) ==> !is_decimal_digit(c),
        c == '/' || c == '}' ==> class_of(c) == CharacterClass::Other,
        class_of(c) == CharacterClass::Whitespace <==> is_whitespace(c),
        class_of(c) == CharacterClass::LineTerminator <==> is_line_terminator(c),
        class_of(c) == CharacterClass::PunctuatorStart <==> is_punctuator_start(c),
        class_of(c) == CharacterClass::DecimalDigit <==> is_decimal_digit(c),
{
}

/// A character is a punctuator start exactly if some punctuator begins with
/// it and it is neither `/` nor `}`.
pub proof fn lemma_punctuator_start_opens_a_punctuator(c: char)
    ensures
        is_punctuator_start(c) <==> c != '/' && c != '}' && exists|p: Punctuator|
            (#[trigger] p.text())[0] == c,
{
    if is_punctuator_start(c) {
        let p = if c == '{' {
            Punctuator::LeftBrace
        } else if c == '(' {
            Punctuator::LeftParen
        } else if c == ')' {
            Punctuator::RightParen
        } else if c == '[' {
            Punctuator::LeftBracket
        } else if c == ']' {
            Punctuator::RightBracket
        } else if c == '.' {
            Punctuator::Dot
        } else if c == ';' {
            Punctuator::SemiColon
        } else if c == ',' {
            Punctuator::Comma
        } else if c == '<' {
            Punctuator::LessThan
        } else if c == '>' {
            Punctuator::GreaterThan
        } else if c == '=' {
            Punctuator::Assign
        } else if c == '!' {
            Punctuator::LogicalNot
        } else if c == '+' {
            Punctuator::Plus
        } else if c == '-' {
            Punctuator::Minus
        } else if c == '*' {
            Punctuator::Multiply
        } else if c == '%' {
            Punctuator::Remainder
        } else if c == '&' {
            Punctuator::BitAnd
        } else if c == '|' {
            Punctuator::BitOr
        } else if c == '^' {
            Punctuator::BitXor
        } else if c == '~' {
            Punctuator::BitNot
        } else if c == '?' {
            Punctuator::TernaryQuestion
        } else {
            Punctuator::TernaryColon
        };
        assert(p.text()[0] == c);
    }
    assert forall|p: Punctuator|
        (#[trigger] p.text())[0] == c && c != '/' && c != '}' implies is_punctuator_start(c) by {}
}

} // verus!
