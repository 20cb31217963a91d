use vstd::prelude::*;
use crate::ast::reader_struct::SourceCodeReader;
use crate::character_patterns::{classify, is_whitespace, CharacterClass};
use crate::token::structs::error::{TokenizeError, TokenizeErrorKind};
use crate::token::structs::token::{Token, TokenType};
use crate::token::tokenize::{scanned, Scan};

verus! {

/// The end of the run of whitespace that holds `from`: the first position
/// from there on that holds no whitespace.
pub open spec fn whitespace_end(text: Seq<char>, from: int) -> int
    decreases text.len() - from,
{
    if 0 <= from < text.len() && is_whitespace(text[from]) {
        whitespace_end(text, from + 1)
    } else {
        from
    }
}

/// A whitespace token is a whole run of whitespace characters.
pub open spec fn whitespace_scan(text: Seq<char>, at: int) -> Scan {
    if 0 <= at < text.len() && is_whitespace(text[at]) {
        Scan::Lexeme { token_type: TokenType::WhiteSpace, end: whitespace_end(text, at) }
    } else {
        Scan::misplaced(text, at, TokenizeErrorKind::UnknownCharacter)
    }
}

/// The run that `whitespace_end` closes is whitespace throughout, and what
/// follows it is not.
pub proof fn lemma_whitespace_end(text: Seq<char>, from: int)
    requires
        0 <= from <= text.len(),
    ensures
        from <= whitespace_end(text, from) <= text.len(),
        forall|i: int| from <= i < whitespace_end(text, from) ==> is_whitespace(#[trigger] text[i]),
        whitespace_end(text, from) < text.len() ==> !is_whitespace(
            text[whitespace_end(text, from)],
        ),
    decreases text.len() - from,
{
    if from < text.len() && is_whitespace(text[from]) {
        lemma_whitespace_end(text, from + 1);
    }
}

/// Reads a run of whitespace as one token.
pub fn tokenize_whitespace(reader: &mut SourceCodeReader) -> (result: Result<Token, TokenizeError>)
    ensures
        scanned(
            old(reader),
            final(reader),
            result,
            whitespace_scan(old(reader).text(), old(reader).position()),
        ),
{
    let start = reader.offset();
    match reader.peek() {
        None => {
            return Err(TokenizeError::new(TokenizeErrorKind::UnexpectedEndOfInput, start));
        },
        Some((_, c)) => {
            if classify(c) != CharacterClass::Whitespace {
                return Err(TokenizeError::new(TokenizeErrorKind::UnknownCharacter, start));
            }
        },
    }
    loop
        invariant
            reader.text() == old(reader).text(),
            0 <= reader.position() <= reader.text().len(),
            whitespace_end(reader.text(), reader.position()) == whitespace_end(
                old(reader).text(),
                old(reader).position(),
            ),
        ensures
            reader.position() == whitespace_end(old(reader).text(), old(reader).position()),
        decreases reader.text().len() - reader.position(),
    {
        match reader.peek() {
            Some((_, c)) => {
                if classify(c) == CharacterClass::Whitespace {
                    reader.advance();
                } else {
                    break ;
                }
            },
            None => {
                break ;
            },
        }
    }
    let end = reader.offset();
    Ok(Token::new(TokenType::WhiteSpace, start, end))
}

} // verus!
