use vstd::prelude::*;
use crate::ast::reader_struct::SourceCodeReader;
use crate::token::structs::context::{BraceContext, DivContext};
use crate::token::structs::error::{TokenizeError, TokenizeErrorKind};
use crate::token::structs::punctuator::Punctuator;
use crate::token::structs::token::{Token, TokenType};
use crate::token::tokenize::comment::{
    lemma_comment_close, lemma_line_end, multiline_comment_scan, singleline_comment_scan,
    tokenize_multiline_comment, tokenize_singleline_comment,
};
use crate::token::tokenize::{
    byte_offset, char_at, lemma_byte_offset_monotonic, misplaced, scanned, starts_with, Scan,
};

verus! {

/// The text holds `p` at `at`, and no punctuator that it holds there is
/// longer.
pub open spec fn is_longest_match(text: Seq<char>, at: int, p: Punctuator) -> bool {
    &&& starts_with(text, at, p.text())
    &&& forall|q: Punctuator| starts_with(text, at, q.text()) ==> q.text().len() <= p.text().len()
}

/// The longest punctuator that the text holds at `at`, if it holds any.
pub open spec fn longest_punctuator(text: Seq<char>, at: int) -> Option<Punctuator> {
    if exists|p: Punctuator| is_longest_match(text, at, p) {
        Some(choose|p: Punctuator| is_longest_match(text, at, p))
    } else {
        None
    }
}

/// The longest match is one punctuator, and `longest_punctuator` is that
/// one.
pub proof fn lemma_longest_match_is_unique(text: Seq<char>, at: int, p: Punctuator, q: Punctuator)
    requires
        is_longest_match(text, at, p),
        is_longest_match(text, at, q),
    ensures
        p == q,
        longest_punctuator(text, at) == Some(p),
{
    assert(p.text().len() == q.text().len());
    Punctuator::lemma_text_is_injective(p, q);
    let chosen = choose|r: Punctuator| is_longest_match(text, at, r);
    assert(chosen.text().len() == p.text().len());
    Punctuator::lemma_text_is_injective(chosen, p);
}

/// What the punctuator scanner finds.
///
/// `//` and `/*` open a comment. Otherwise the token is the longest
/// punctuator that the text holds, with three exceptions: a `/` that
/// stands where a regular expression may start, and a `}` that stands where
/// template text goes on, are not supported; and `..` that no third `.`
/// follows is no operator.
pub open spec fn punctuator_scan(
    text: Seq<char>,
    at: int,
    div: DivContext,
    brace: BraceContext,
) -> Scan {
    if starts_with(text, at, seq!['/', '/']) {
        singleline_comment_scan(text, at)
    } else if starts_with(text, at, seq!['/', '*']) {
        multiline_comment_scan(text, at)
    } else {
        match longest_punctuator(text, at) {
            None => Scan::misplaced(text, at, TokenizeErrorKind::UnknownCharacter),
            Some(p) => {
                if p == Punctuator::Divide && div == DivContext::RegexStart {
                    Scan::Failure { kind: TokenizeErrorKind::NotYetSupported, at }
                } else if p == Punctuator::RightBrace && brace
                    == BraceContext::TemplateContinuation {
                    Scan::Failure { kind: TokenizeErrorKind::NotYetSupported, at }
                } else if p == Punctuator::Dot && starts_with(text, at, seq!['.', '.']) {
                    Scan::Failure { kind: TokenizeErrorKind::InvalidPunctuator, at }
                } else {
                    Scan::Lexeme { token_type: TokenType::Punctuator(p), end: at + p.text().len() }
                }
            },
        }
    }
}

/// For a word of one to four characters, holding it is a matter of the
/// four characters from `at` on.
pub proof fn lemma_starts_with_short(text: Seq<char>, at: int, word: Seq<char>)
    requires
        0 <= at,
        1 <= word.len() <= 4,
    ensures
        starts_with(text, at, word) <==> {
            &&& (word.len() > 0 ==> char_at(text, at) == Some(word[0]))
            &&& (word.len() > 1 ==> char_at(text, at + 1) == Some(word[1]))
            &&& (word.len() > 2 ==> char_at(text, at + 2) == Some(word[2]))
            &&& (word.len() > 3 ==> char_at(text, at + 3) == Some(word[3]))
        },
{
    let by_characters = {
        &&& (word.len() > 0 ==> char_at(text, at) == Some(word[0]))
        &&& (word.len() > 1 ==> char_at(text, at + 1) == Some(word[1]))
        &&& (word.len() > 2 ==> char_at(text, at + 2) == Some(word[2]))
        &&& (word.len() > 3 ==> char_at(text, at + 3) == Some(word[3]))
    };
    if at + word.len() <= text.len() {
        let part = text.subrange(at, at + word.len());
        if part == word {
            if word.len() > 0 {
                assert(part[0] == text[at]);
            }
            if word.len() > 1 {
                assert(part[1] == text[at + 1]);
            }
            if word.len() > 2 {
                assert(part[2] == text[at + 2]);
            }
            if word.len() > 3 {
                assert(part[3] == text[at + 3]);
            }
        } else if by_characters {
            assert(part =~= word);
        }
    } else {
        assert(char_at(text, at + word.len() - 1) is None);
        assert(!by_characters);
    }
}

/// A punctuator or a comment is not empty, and a failure lies at or behind
/// the place where the scanner started, within the text.
pub proof fn lemma_punctuator_scan_bounds(
    text: Seq<char>,
    at: int,
    div: DivContext,
    brace: BraceContext,
)
    requires
        0 <= at < text.len(),
    ensures
        match punctuator_scan(text, at, div, brace) {
            Scan::Lexeme { token_type, end } => (token_type is Punctuator || token_type is Comment)
                && at < end <= text.len(),
            Scan::Failure { at: place, .. } => at <= place <= text.len(),
        },
{
    if starts_with(text, at, seq!['/', '/']) {
        lemma_line_end(text, at + 2);
    } else if starts_with(text, at, seq!['/', '*']) {
        lemma_comment_close(text, at + 2);
    } else if let Some(p) = longest_punctuator(text, at) {
        assert(is_longest_match(text, at, p));
        assert(1 <= p.text().len());
    }
}

fn is_char(c: Option<char>, expected: char) -> (b: bool)
    ensures
        b == (c == Some(expected)),
{
    match c {
        Some(c) => c == expected,
        None => false,
    }
}

/// The longest punctuator that begins with `c0` and goes on with as many
/// of `c1`, `c2`, `c3` as it can.
fn select_punctuator(
    c0: char,
    c1: Option<char>,
    c2: Option<char>,
    c3: Option<char>,
    Ghost(text): Ghost<Seq<char>>,
    Ghost(at): Ghost<int>,
) -> (selected: Option<Punctuator>)
    requires
        0 <= at,
        char_at(text, at) == Some(c0),
        char_at(text, at + 1) == c1,
        char_at(text, at + 2) == c2,
        char_at(text, at + 3) == c3,
    ensures
        selected == longest_punctuator(text, at),
        selected matches Some(p) ==> is_longest_match(text, at, p),
{
    let selected = match c0 {
        '{' => Some(Punctuator::LeftBrace),
        '}' => Some(Punctuator::RightBrace),
        '(' => Some(Punctuator::LeftParen),
        ')' => Some(Punctuator::RightParen),
        '[' => Some(Punctuator::LeftBracket),
        ']' => Some(Punctuator::RightBracket),
        ';' => Some(Punctuator::SemiColon),
        ',' => Some(Punctuator::Comma),
        '~' => Some(Punctuator::BitNot),
        ':' => Some(Punctuator::TernaryColon),
        '.' => {
            if is_char(c1, '.') && is_char(c2, '.') {
                Some(Punctuator::DotThree)
            } else {
                Some(Punctuator::Dot)
            }
        },
        '<' => {
            if is_char(c1, '<') {
                if is_char(c2, '=') {
                    Some(Punctuator::LeftShiftAssign)
                } else {
                    Some(Punctuator::LeftShift)
                }
            } else if is_char(c1, '=') {
                Some(Punctuator::LessThanEqual)
            } else {
                Some(Punctuator::LessThan)
            }
        },
        '>' => {
            if is_char(c1, '>') {
                if is_char(c2, '>') {
                    if is_char(c3, '=') {
                        Some(Punctuator::UnsignedRightShiftAssign)
                    } else {
                        Some(Punctuator::UnsignedRightShift)
                    }
                } else if is_char(c2, '=') {
                    Some(Punctuator::RightShiftAssign)
                } else {
                    Some(Punctuator::RightShift)
                }
            } else if is_char(c1, '=') {
                Some(Punctuator::GreaterThanEqual)
            } else {
                Some(Punctuator::GreaterThan)
            }
        },
        '=' => {
            if is_char(c1, '=') {
                if is_char(c2, '=') {
                    Some(Punctuator::StrictEqual)
                } else {
                    Some(Punctuator::Equal)
                }
            } else if is_char(c1, '>') {
                Some(Punctuator::Arrow)
            } else {
                Some(Punctuator::Assign)
            }
        },
        '!' => {
            if is_char(c1, '=') {
                if is_char(c2, '=') {
                    Some(Punctuator::StrictNotEqual)
                } else {
                    Some(Punctuator::NotEqual)
                }
            } else {
                Some(Punctuator::LogicalNot)
            }
        },
        '+' => {
            if is_char(c1, '+') {
                Some(Punctuator::Increment)
            } else if is_char(c1, '=') {
                Some(Punctuator::PlusAssign)
            } else {
                Some(Punctuator::Plus)
            }
        },
        '-' => {
            if is_char(c1, '-') {
                Some(Punctuator::Decrement)
            } else if is_char(c1, '=') {
                Some(Punctuator::MinusAssign)
            } else {
                Some(Punctuator::Minus)
            }
        },
        '*' => {
            if is_char(c1, '*') {
                if is_char(c2, '=') {
                    Some(Punctuator::ExponentiationAssign)
                } else {
                    Some(Punctuator::Exponentiation)
                }
            } else if is_char(c1, '=') {
                Some(Punctuator::MultiplyAssign)
            } else {
                Some(Punctuator::Multiply)
            }
        },
        '/' => {
            if is_char(c1, '=') {
                Some(Punctuator::DivideAssign)
            } else {
                Some(Punctuator::Divide)
            }
        },
        '%' => {
            if is_char(c1, '=') {
                Some(Punctuator::RemainderAssign)
            } else {
                Some(Punctuator::Remainder)
            }
        },
        '&' => {
            if is_char(c1, '&') {
                if is_char(c2, '=') {
                    Some(Punctuator::LogicalAndAssign)
                } else {
                    Some(Punctuator::LogicalAnd)
                }
            } else if is_char(c1, '=') {
                Some(Punctuator::BitAndAssign)
            } else {
                Some(Punctuator::BitAnd)
            }
        },
        '|' => {
            if is_char(c1, '|') {
                if is_char(c2, '=') {
                    Some(Punctuator::LogicalOrAssign)
                } else {
                    Some(Punctuator::LogicalOr)
                }
            } else if is_char(c1, '=') {
                Some(Punctuator::BitOrAssign)
            } else {
                Some(Punctuator::BitOr)
            }
        },
        '^' => {
            if is_char(c1, '=') {
                Some(Punctuator::BitXorAssign)
            } else {
                Some(Punctuator::BitXor)
            }
        },
        '?' => {
            if is_char(c1, '?') {
                if is_char(c2, '=') {
                    Some(Punctuator::NullishCoalesceAssign)
                } else {
                    Some(Punctuator::NullishCoalesce)
                }
            } else if is_char(c1, '.') {
                Some(Punctuator::OptionalChain)
            } else {
                Some(Punctuator::TernaryQuestion)
            }
        },
        _ => None,
    };
    proof {
        assert forall|q: Punctuator| starts_with(text, at, q.text()) implies selected is Some
            && q.text().len() <= selected->0.text().len() by {
            lemma_starts_with_short(text, at, q.text());
        }
        if let Some(p) = selected {
            lemma_starts_with_short(text, at, p.text());
            lemma_longest_match_is_unique(text, at, p, p);
        }
    }
    selected
}

/// The longest punctuator at the reader's position, if one stands there.
/// The reader does not move.
pub fn longest_punctuator_at(reader: &SourceCodeReader) -> (selected: Option<Punctuator>)
    ensures
        selected == longest_punctuator(reader.text(), reader.position()),
        selected matches Some(p) ==> is_longest_match(reader.text(), reader.position(), p),
        0 <= reader.position() <= reader.text().len(),
{
    let c1 = character(reader.peek_nth(1));
    let c2 = character(reader.peek_nth(2));
    let c3 = character(reader.peek_nth(3));
    match reader.peek() {
        Some((_, c0)) => select_punctuator(
            c0,
            c1,
            c2,
            c3,
            Ghost(reader.text()),
            Ghost(reader.position()),
        ),
        None => {
            proof {
                assert forall|p: Punctuator| !starts_with(
                    reader.text(),
                    reader.position(),
                    p.text(),
                ) by {
                    lemma_starts_with_short(reader.text(), reader.position(), p.text());
                }
            }
            None
        },
    }
}

/// The two characters at the reader's position are `first` and `second`.
/// The reader does not move.
pub fn looks_at(reader: &SourceCodeReader, first: char, second: char) -> (b: bool)
    ensures
        b == starts_with(reader.text(), reader.position(), seq![first, second]),
        0 <= reader.position() <= reader.text().len(),
{
    let found = is_char(character(reader.peek()), first) && is_char(
        character(reader.peek_nth(1)),
        second,
    );
    proof {
        lemma_starts_with_short(reader.text(), reader.position(), seq![first, second]);
    }
    found
}

/// Where the reader stands behind `first` and on `second`, the byte
/// offset of `first`. The reader does not move.
pub fn entered_behind(reader: &SourceCodeReader, first: char, second: char) -> (start: Option<
    usize,
>)
    ensures
        start is Some == starts_with(reader.text(), reader.position() - 1, seq![first, second]),
        start matches Some(offset) ==> offset == byte_offset(
            reader.text(),
            reader.position() - 1,
        ),
        0 <= reader.position() <= reader.text().len(),
{
    let last = reader.previous();
    let next = character(reader.peek());
    proof {
        if reader.position() > 0 {
            lemma_starts_with_short(reader.text(), reader.position() - 1, seq![first, second]);
            lemma_byte_offset_monotonic(
                reader.text(),
                reader.position() - 1,
                reader.text().len() as int,
            );
        }
    }
    match last {
        Some((offset, c)) => {
            if c == first && is_char(next, second) {
                Some(offset)
            } else {
                None
            }
        },
        None => None,
    }
}

fn character(entry: Option<(usize, char)>) -> (c: Option<char>)
    ensures
        c == match entry {
            Some(pair) => Some(pair.1),
            None => None,
        },
{
    match entry {
        Some((_, c)) => Some(c),
        None => None,
    }
}

/// Reads a punctuator, or the comment that `//` or `/*` opens: there the
/// first `/` is consumed and the comment scanner reads on.
pub fn tokenize_punctuator(
    reader: &mut SourceCodeReader,
    div: DivContext,
    brace: BraceContext,
) -> (result: Result<Token, TokenizeError>)
    ensures
        scanned(
            old(reader),
            final(reader),
            result,
            punctuator_scan(old(reader).text(), old(reader).position(), div, brace),
        ),
{
    let start = reader.offset();
    if looks_at(reader, '/', '/') {
        reader.advance();
        return tokenize_singleline_comment(reader);
    }
    if looks_at(reader, '/', '*') {
        reader.advance();
        return tokenize_multiline_comment(reader);
    }
    match longest_punctuator_at(reader) {
        None => Err(misplaced(reader, TokenizeErrorKind::UnknownCharacter)),
        Some(p) => {
            if p == Punctuator::Divide && div == DivContext::RegexStart {
                Err(TokenizeError::new(TokenizeErrorKind::NotYetSupported, start))
            } else if p == Punctuator::RightBrace && brace == BraceContext::TemplateContinuation {
                Err(TokenizeError::new(TokenizeErrorKind::NotYetSupported, start))
            } else if p == Punctuator::Dot && looks_at(reader, '.', '.') {
                Err(TokenizeError::new(TokenizeErrorKind::InvalidPunctuator, start))
            } else {
                reader.advance_by(p.length());
                let end = reader.offset();
                Ok(Token::new(TokenType::Punctuator(p), start, end))
            }
        },
    }
}

} // verus!
