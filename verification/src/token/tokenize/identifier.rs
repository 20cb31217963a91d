use vstd::prelude::*;
use crate::ast::reader_struct::SourceCodeReader;
use crate::character_patterns::is_decimal_digit;
use crate::token::structs::error::{TokenizeError, TokenizeErrorKind};
use crate::token::structs::token::{Token, TokenType};
use crate::token::tokenize::{scanned, Scan};

verus! {

/// The characters an identifier may begin with: the ASCII letters, `$` and
/// `_`.
pub open spec fn is_identifier_start(c: char) -> bool {
    ('a' <= c && c <= 'z') || ('A' <= c && c <= 'Z') || c == '$' || c == '_'
}

/// The characters an identifier may go on with: those it may begin with,
/// and the decimal digits.
pub open spec fn is_identifier_part(c: char) -> bool {
    is_identifier_start(c) || is_decimal_digit(c)
}

/// The end of the run of identifier characters that holds `from`.
pub open spec fn identifier_end(text: Seq<char>, from: int) -> int
    decreases text.len() - from,
{
    if 0 <= from < text.len() && is_identifier_part(text[from]) {
        identifier_end(text, from + 1)
    } else {
        from
    }
}

/// An identifier token is a start character and the whole run of
/// identifier characters behind it.
pub open spec fn identifier_scan(text: Seq<char>, at: int) -> Scan {
    if 0 <= at < text.len() && is_identifier_start(text[at]) {
        Scan::Lexeme { token_type: TokenType::Identifier, end: identifier_end(text, at + 1) }
    } else {
        Scan::misplaced(text, at, TokenizeErrorKind::UnknownCharacter)
    }
}

/// The run that `identifier_end` closes holds identifier characters only,
/// and what follows it is none.
pub proof fn lemma_identifier_end(text: Seq<char>, from: int)
    requires
        0 <= from <= text.len(),
    ensures
        from <= identifier_end(text, from) <= text.len(),
        forall|i: int|
            from <= i < identifier_end(text, from) ==> is_identifier_part(#[trigger] text[i]),
        identifier_end(text, from) < text.len() ==> !is_identifier_part(
            text[identifier_end(text, from)],
        ),
    decreases text.len() - from,
{
    if from < text.len() && is_identifier_part(text[from]) {
        lemma_identifier_end(text, from + 1);
    }
}

pub fn identifier_start(c: char) -> (b: bool)
    ensures
        b == is_identifier_start(c),
{
    match c {
        'a'..='z' | 'A'..='Z' | '$' | '_' => true,
        _ => false,
    }
}

pub fn identifier_part(c: char) -> (b: bool)
    ensures
        b == is_identifier_part(c),
{
    match c {
        'a'..='z' | 'A'..='Z' | '$' | '_' | '0'..='9' => true,
        _ => false,
    }
}

/// Reads an identifier.
pub fn tokenize_identifier(reader: &mut SourceCodeReader) -> (result: Result<Token, TokenizeError>)
    ensures
        scanned(
            old(reader),
            final(reader),
            result,
            identifier_scan(old(reader).text(), old(reader).position()),
        ),
{
    let start = reader.offset();
    match reader.peek() {
        None => {
            return Err(TokenizeError::new(TokenizeErrorKind::UnexpectedEndOfInput, start));
        },
        Some((_, c)) => {
            if !identifier_start(c) {
                return Err(TokenizeError::new(TokenizeErrorKind::UnknownCharacter, start));
            }
        },
    }
    reader.advance();
    loop
        invariant
            reader.text() == old(reader).text(),
            0 <= reader.position() <= reader.text().len(),
            identifier_end(reader.text(), reader.position()) == identifier_end(
                old(reader).text(),
                old(reader).position() + 1,
            ),
        ensures
            reader.position() == identifier_end(old(reader).text(), old(reader).position() + 1),
        decreases reader.text().len() - reader.position(),
    {
        match reader.peek() {
            Some((_, c)) => {
                if identifier_part(c) {
                    reader.advance();
                } else {
                    break ;
                }
            },
            None => {
                break ;
            },
        }
    }
    let end = reader.offset();
    Ok(Token::new(TokenType::Identifier, start, end))
}

} // verus!
