use vstd::prelude::*;
use crate::ast::reader_struct::SourceCodeReader;
use crate::character_patterns::{classify, is_line_terminator, CharacterClass};
use crate::token::structs::comment::Comment;
use crate::token::structs::error::{TokenizeError, TokenizeErrorKind};
use crate::token::structs::token::{Token, TokenType};
use crate::token::tokenize::punctuator::entered_behind;
use crate::token::tokenize::{byte_offset, misplaced, scanned_behind, starts_with, Scan};

verus! {

/// The end of the line that holds `from`: the first position from there on
/// that holds a line terminator, or the end of the text.
pub open spec fn line_end(text: Seq<char>, from: int) -> int
    decreases text.len() - from,
{
    if 0 <= from < text.len() && !is_line_terminator(text[from]) {
        line_end(text, from + 1)
    } else {
        from
    }
}

/// A line comment runs from `//` to the end of the line. The line
/// terminator is not part of it.
pub open spec fn singleline_comment_scan(text: Seq<char>, at: int) -> Scan {
    if starts_with(text, at, seq!['/', '/']) {
        Scan::Lexeme {
            token_type: TokenType::Comment(Comment::SingleLineComment),
            end: line_end(text, at + 2),
        }
    } else {
        Scan::misplaced(text, at, TokenizeErrorKind::UnknownCharacter)
    }
}

/// What the line comment scanner finds. It is entered at `at`, behind the
/// first `/` of the comment and on the second: the comment is read from
/// its first `/`. Entered anywhere else, it is misplaced.
pub open spec fn singleline_comment_entered(text: Seq<char>, at: int) -> Scan {
    if starts_with(text, at - 1, seq!['/', '/']) {
        singleline_comment_scan(text, at - 1)
    } else {
        Scan::misplaced(text, at, TokenizeErrorKind::UnknownCharacter)
    }
}

/// The position behind the first `*/` that begins at `from` or later, if
/// there is one.
pub open spec fn comment_close(text: Seq<char>, from: int) -> Option<int>
    decreases text.len() - from,
{
    if 0 <= from && from + 1 < text.len() {
        if text[from] == '*' && text[from + 1] == '/' {
            Some(from + 2)
        } else {
            comment_close(text, from + 1)
        }
    } else {
        None
    }
}

/// A block comment runs from `/*` through the first `*/` behind it. The
/// `*` of the opening is not the `*` of a closing, so `/*/` is still open.
/// A comment that is never closed fails at the end of the text.
pub open spec fn multiline_comment_scan(text: Seq<char>, at: int) -> Scan {
    if starts_with(text, at, seq!['/', '*']) {
        match comment_close(text, at + 2) {
            Some(end) => Scan::Lexeme {
                token_type: TokenType::Comment(Comment::MultiLineComment),
                end,
            },
            None => Scan::Failure {
                kind: TokenizeErrorKind::UnterminatedComment,
                at: text.len() as int,
            },
        }
    } else {
        Scan::misplaced(text, at, TokenizeErrorKind::UnknownCharacter)
    }
}

/// What the block comment scanner finds. It is entered at `at`, behind the
/// `/` of the opening and on its `*`: the comment is read from the `/`.
/// Entered anywhere else, it is misplaced.
pub open spec fn multiline_comment_entered(text: Seq<char>, at: int) -> Scan {
    if starts_with(text, at - 1, seq!['/', '*']) {
        multiline_comment_scan(text, at - 1)
    } else {
        Scan::misplaced(text, at, TokenizeErrorKind::UnknownCharacter)
    }
}

/// The line that `line_end` closes holds no line terminator, and it ends at
/// one or at the end of the text.
pub proof fn lemma_line_end(text: Seq<char>, from: int)
    requires
        0 <= from <= text.len(),
    ensures
        from <= line_end(text, from) <= text.len(),
        forall|i: int| from <= i < line_end(text, from) ==> !is_line_terminator(#[trigger] text[i]),
        line_end(text, from) < text.len() ==> is_line_terminator(text[line_end(text, from)]),
    decreases text.len() - from,
{
    if from < text.len() && !is_line_terminator(text[from]) {
        lemma_line_end(text, from + 1);
    }
}

/// Where `comment_close` finds a closing, `*/` stands right before the
/// position it gives, and no `*/` begins between `from` and there. Where it
/// finds none, no `*/` begins at `from` or later.
pub proof fn lemma_comment_close(text: Seq<char>, from: int)
    requires
        0 <= from <= text.len(),
    ensures
        match comment_close(text, from) {
            Some(end) => {
                &&& from + 2 <= end <= text.len()
                &&& text[end - 2] == '*'
                &&& text[end - 1] == '/'
                &&& forall|i: int|
                    from <= i < end - 2 ==> !(#[trigger] text[i] == '*' && text[i + 1] == '/')
            },
            None => forall|i: int|
                from <= i && i + 1 < text.len() ==> !(#[trigger] text[i] == '*' && text[i + 1]
                    == '/'),
        },
    decreases text.len() - from,
{
    if from + 1 < text.len() && !(text[from] == '*' && text[from + 1] == '/') {
        lemma_comment_close(text, from + 1);
    }
}

/// Reads a line comment. The first `/` has been consumed and the reader
/// stands on the second; the token spans the comment from the first.
pub fn tokenize_singleline_comment(reader: &mut SourceCodeReader) -> (result: Result<
    Token,
    TokenizeError,
>)
    ensures
        scanned_behind(
            old(reader),
            final(reader),
            result,
            singleline_comment_entered(old(reader).text(), old(reader).position()),
        ),
{
    let start = match entered_behind(reader, '/', '/') {
        Some(start) => start,
        None => {
            return Err(misplaced(reader, TokenizeErrorKind::UnknownCharacter));
        },
    };
    reader.advance();
    loop
        invariant
            reader.text() == old(reader).text(),
            0 <= reader.position() <= reader.text().len(),
            line_end(reader.text(), reader.position()) == line_end(
                old(reader).text(),
                old(reader).position() + 1,
            ),
        ensures
            reader.position() == line_end(old(reader).text(), old(reader).position() + 1),
        decreases reader.text().len() - reader.position(),
    {
        match reader.peek() {
            Some((_, c)) => {
                if classify(c) != CharacterClass::LineTerminator {
                    reader.advance();
                } else {
                    break ;
                }
            },
            None => {
                break ;
            },
        }
    }
    let end = reader.offset();
    Ok(Token::new(TokenType::Comment(Comment::SingleLineComment), start, end))
}

/// Reads a block comment. The `/` of the opening has been consumed and the
/// reader stands on its `*`; the token spans the comment from the `/`.
pub fn tokenize_multiline_comment(reader: &mut SourceCodeReader) -> (result: Result<
    Token,
    TokenizeError,
>)
    ensures
        scanned_behind(
            old(reader),
            final(reader),
            result,
            multiline_comment_entered(old(reader).text(), old(reader).position()),
        ),
{
    let start = match entered_behind(reader, '/', '*') {
        Some(start) => start,
        None => {
            return Err(misplaced(reader, TokenizeErrorKind::UnknownCharacter));
        },
    };
    // The opening `*` is passed here, so that it cannot close the comment.
    reader.advance();
    let mut is_prev_asterisk = false;
    loop
        invariant
            reader.text() == old(reader).text(),
            1 <= old(reader).position(),
            start == byte_offset(old(reader).text(), old(reader).position() - 1),
            starts_with(old(reader).text(), old(reader).position() - 1, seq!['/', '*']),
            old(reader).position() + 1 <= reader.position() <= reader.text().len(),
            is_prev_asterisk ==> reader.text()[reader.position() - 1] == '*',
            comment_close(
                reader.text(),
                reader.position() - if is_prev_asterisk {
                    1int
                } else {
                    0
                },
            ) == comment_close(old(reader).text(), old(reader).position() + 1),
        decreases reader.text().len() - reader.position(),
    {
        let ghost text = reader.text();
        let ghost here = reader.position();
        match reader.advance() {
            Some((_, c)) => {
                proof {
                    assert(c == text[here]);
                    if is_prev_asterisk {
                        assert(comment_close(text, here - 1) == if c == '/' {
                            Some(here + 1)
                        } else {
                            comment_close(text, here)
                        });
                    }
                    if c != '*' {
                        assert(comment_close(text, here) == comment_close(text, here + 1));
                    }
                }
                if is_prev_asterisk && c == '/' {
                    let end = reader.offset();
                    return Ok(
                        Token::new(TokenType::Comment(Comment::MultiLineComment), start, end),
                    );
                }
                is_prev_asterisk = c == '*';
            },
            None => {
                proof {
                    assert(here == text.len());
                    assert(comment_close(text, here - 1) is None);
                    assert(comment_close(text, here) is None);
                }
                let end = reader.offset();
                return Err(TokenizeError::new(TokenizeErrorKind::UnterminatedComment, end));
            },
        }
    }
}

} // verus!
