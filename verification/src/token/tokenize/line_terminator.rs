use vstd::prelude::*;
use crate::ast::reader_struct::SourceCodeReader;
use crate::character_patterns::{classify, is_line_terminator, CharacterClass};
use crate::token::structs::error::{TokenizeError, TokenizeErrorKind};
use crate::token::structs::token::{Token, TokenType};
use crate::token::tokenize::{scanned, Scan};

verus! {

/// A line terminator token is one line break: a carriage return with the
/// line feed that follows it, if one does, or a single line feed, line
/// separator or paragraph separator. Line breaks in a row are not joined.
pub open spec fn line_terminator_scan(text: Seq<char>, at: int) -> Scan {
    if 0 <= at < text.len() && is_line_terminator(text[at]) {
        if text[at] == '\u{000D}' && at + 1 < text.len() && text[at + 1] == '\u{000A}' {
            Scan::Lexeme { token_type: TokenType::LineTerminator, end: at + 2 }
        } else {
            Scan::Lexeme { token_type: TokenType::LineTerminator, end: at + 1 }
        }
    } else {
        Scan::misplaced(text, at, TokenizeErrorKind::UnknownCharacter)
    }
}

/// Reads one line break as one token.
pub fn tokenize_line_terminator(reader: &mut SourceCodeReader) -> (result: Result<
    Token,
    TokenizeError,
>)
    ensures
        scanned(
            old(reader),
            final(reader),
            result,
            line_terminator_scan(old(reader).text(), old(reader).position()),
        ),
{
    let start = reader.offset();
    match reader.peek() {
        None => Err(TokenizeError::new(TokenizeErrorKind::UnexpectedEndOfInput, start)),
        Some((_, c)) => {
            if classify(c) != CharacterClass::LineTerminator {
                return Err(TokenizeError::new(TokenizeErrorKind::UnknownCharacter, start));
            }
            reader.advance();
            if c == '\u{000D}' {
                match reader.peek() {
                    Some((_, '\u{000A}')) => {
                        reader.advance();
                    },
                    _ => {},
                }
            }
            let end = reader.offset();
            Ok(Token::new(TokenType::LineTerminator, start, end))
        },
    }
}

} // verus!
