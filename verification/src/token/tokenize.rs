//! The scanners, one for each family of tokens, and the dispatcher that
//! picks among them.
//!
//! A scanner starts at the reader's position and recognises one lexeme.
//! What it finds is said by a spec function over the text and the start
//! position, in code points; the scanner's contract ties its result and the
//! reader's new position to that.
use vstd::prelude::*;
use vstd::utf8::{
    encode_scalar, encode_utf8, encode_utf8_first_scalar, encode_utf8_valid_utf8, is_char_boundary,
    pop_first_scalar,
};
use crate::ast::reader_struct::SourceCodeReader;
use crate::character_patterns::{
    is_decimal_digit, is_line_terminator, is_punctuator_start, is_whitespace,
};
use crate::token::structs::context::{BraceContext, DivContext};
use crate::token::structs::error::{TokenizeError, TokenizeErrorKind};
use crate::token::structs::token::{Token, TokenList, TokenType};
use crate::token::tokenize::identifier::{
    identifier_scan, is_identifier_start, lemma_identifier_end,
};
use crate::token::tokenize::line_terminator::line_terminator_scan;
use crate::token::tokenize::literal::{
    decimal_starts, lemma_numeric_literal_scan_bounds, numeric_literal_scan,
};
use crate::token::tokenize::punctuator::{
    is_longest_match, lemma_punctuator_scan_bounds, lemma_starts_with_short, longest_punctuator,
    punctuator_scan,
};
use crate::token::tokenize::whitespace::{lemma_whitespace_end, whitespace_scan};

pub mod comment;
pub mod identifier;
pub mod line_terminator;
pub mod literal;
pub mod punctuator;
pub mod whitespace;

verus! {

/// What a scanner finds at a position of a text. Positions count code
/// points.
pub enum Scan {
    /// A lexeme of this kind that ends before `end`.
    Lexeme { token_type: TokenType, end: int },
    /// No lexeme: this failure, found at `at`.
    Failure { kind: TokenizeErrorKind, at: int },
}

impl Scan {
    /// Where the reader rests after the scan: behind the lexeme, or on the
    /// place of the failure.
    pub open spec fn rest(self) -> int {
        match self {
            Scan::Lexeme { end, .. } => end,
            Scan::Failure { at, .. } => at,
        }
    }

    /// `result` reports this scan, made of `text` from `start`: the token
    /// with its span in bytes, or the error with its offset in bytes.
    pub open spec fn reported_by(
        self,
        result: Result<Token, TokenizeError>,
        text: Seq<char>,
        start: int,
    ) -> bool {
        match self {
            Scan::Lexeme { token_type, end } => {
                &&& result matches Ok(token)
                &&& token.token_type == token_type
                &&& token.token_start_index == byte_offset(text, start)
                &&& token.token_end_index == byte_offset(text, end)
            },
            Scan::Failure { kind, at } => {
                &&& result matches Err(error)
                &&& error.kind == kind
                &&& error.offset == byte_offset(text, at)
            },
        }
    }

    /// The failure of a scanner that was started where its lexeme cannot
    /// start: at the end of the text, or on a character of another kind.
    pub open spec fn misplaced(text: Seq<char>, at: int, kind: TokenizeErrorKind) -> Scan {
        if at >= text.len() {
            Scan::Failure { kind: TokenizeErrorKind::UnexpectedEndOfInput, at }
        } else {
            Scan::Failure { kind, at }
        }
    }
}

/// A scanner took the reader from `before` to `after` and returned `result`,
/// and `scan` is what there was to find: the text is the same, the reader
/// rests where the scan says, and the result reports the scan.
pub open spec fn scanned(
    before: &SourceCodeReader,
    after: &SourceCodeReader,
    result: Result<Token, TokenizeError>,
    scan: Scan,
) -> bool {
    &&& after.text() == before.text()
    &&& after.position() == scan.rest()
    &&& scan.reported_by(result, before.text(), before.position())
}

/// A scanner that is entered behind the first character of its lexeme took
/// the reader from `before` to `after` and returned `result`, and `scan` is
/// what there was to find: the text is the same, the reader rests where
/// the scan says, and the result reports the scan, with the span of the
/// token from the character that was consumed before the scanner was
/// entered.
pub open spec fn scanned_behind(
    before: &SourceCodeReader,
    after: &SourceCodeReader,
    result: Result<Token, TokenizeError>,
    scan: Scan,
) -> bool {
    &&& after.text() == before.text()
    &&& after.position() == scan.rest()
    &&& scan.reported_by(result, before.text(), before.position() - 1)
}

/// The character at `at`, if the text reaches that far.
pub open spec fn char_at(text: Seq<char>, at: int) -> Option<char> {
    if 0 <= at < text.len() {
        Some(text[at])
    } else {
        None
    }
}

/// `text` holds `word` at `at`.
pub open spec fn starts_with(text: Seq<char>, at: int, word: Seq<char>) -> bool {
    &&& 0 <= at
    &&& at + word.len() <= text.len()
    &&& text.subrange(at, at + word.len()) == word
}

/// The number of bytes that `c` takes in UTF-8.
pub open spec fn utf8_width(c: char) -> nat {
    encode_scalar(c as u32).len()
}

/// The byte offset of the code point at `index` of `text`: the length of
/// the UTF-8 encoding of everything before it. With `index == text.len()`
/// it is the length of the whole text in bytes.
pub open spec fn byte_offset(text: Seq<char>, index: int) -> nat {
    encode_utf8(text.take(index)).len()
}

/// The encoding of a text is the encoding of its parts, one after the other.
pub proof fn lemma_encode_utf8_concat(first: Seq<char>, second: Seq<char>)
    ensures
        encode_utf8(first + second) == encode_utf8(first) + encode_utf8(second),
    decreases first.len(),
{
    if first.len() == 0 {
        assert(first + second =~= second);
        assert(encode_utf8(first) + encode_utf8(second) =~= encode_utf8(second));
    } else {
        lemma_encode_utf8_concat(first.drop_first(), second);
        assert((first + second).drop_first() =~= first.drop_first() + second);
        assert((first + second)[0] == first[0]);
        assert(encode_utf8(first + second) =~= encode_utf8(first) + encode_utf8(second));
    }
}

/// Every code point takes one to four bytes, and an ASCII one takes one.
pub proof fn lemma_utf8_width_bounds(c: char)
    ensures
        1 <= utf8_width(c) <= 4,
        (c as u32) < 0x80 ==> utf8_width(c) == 1,
{
}

/// Offsets start at zero and grow by the width of each code point passed.
pub proof fn lemma_byte_offset_step(text: Seq<char>, index: int)
    requires
        0 <= index < text.len(),
    ensures
        byte_offset(text, 0) == 0,
        byte_offset(text, index + 1) == byte_offset(text, index) + utf8_width(text[index]),
{
    let one = seq![text[index]];
    assert(text.take(index + 1) =~= text.take(index) + one);
    lemma_encode_utf8_concat(text.take(index), one);
    assert(one.drop_first() =~= Seq::<char>::empty());
    reveal_with_fuel(encode_utf8, 2);
    assert(encode_utf8(one) =~= encode_scalar(text[index] as u32));
    assert(text.take(0) =~= Seq::<char>::empty());
}

/// Before the first code point that is not ASCII, byte offsets are
/// positions.
pub proof fn lemma_byte_offset_of_ascii(text: Seq<char>, index: int)
    requires
        0 <= index <= text.len(),
        forall|i: int| 0 <= i < index ==> (#[trigger] text[i] as u32) < 0x80,
    ensures
        byte_offset(text, index) == index,
    decreases index,
{
    if index == 0 {
        assert(text.take(0) =~= Seq::<char>::empty());
    } else {
        lemma_byte_offset_of_ascii(text, index - 1);
        lemma_byte_offset_step(text, index - 1);
        lemma_utf8_width_bounds(text[index - 1]);
    }
}

/// Offsets never decrease along the text.
pub proof fn lemma_byte_offset_monotonic(text: Seq<char>, from: int, to: int)
    requires
        0 <= from <= to <= text.len(),
    ensures
        byte_offset(text, from) <= byte_offset(text, to),
        from < to ==> byte_offset(text, from) < byte_offset(text, to),
{
    assert(text.take(to) =~= text.take(from) + text.subrange(from, to));
    lemma_encode_utf8_concat(text.take(from), text.subrange(from, to));
    if from < to {
        let rest = text.subrange(from, to);
        lemma_utf8_width_bounds(rest[0]);
        assert(encode_utf8(rest).len() >= encode_scalar(rest[0] as u32).len());
    }
}

/// The byte offset of a code point is a character boundary of the encoded
/// text, and so is the length of the text in bytes.
pub proof fn lemma_byte_offset_is_char_boundary(text: Seq<char>, index: int)
    requires
        0 <= index <= text.len(),
    ensures
        is_char_boundary(encode_utf8(text), byte_offset(text, index) as int),
    decreases index,
{
    let bytes = encode_utf8(text);
    encode_utf8_valid_utf8(text);
    if index == 0 {
        assert(text.take(0) =~= Seq::<char>::empty());
    } else {
        let rest = text.drop_first();
        let first = seq![text[0]];
        encode_utf8_first_scalar(text);
        assert(pop_first_scalar(bytes) =~= encode_utf8(rest));
        assert(text.take(index) =~= first + rest.take(index - 1));
        lemma_encode_utf8_concat(first, rest.take(index - 1));
        assert(first.drop_first() =~= Seq::<char>::empty());
        reveal_with_fuel(encode_utf8, 2);
        assert(encode_utf8(first) =~= encode_scalar(text[0] as u32));
        lemma_utf8_width_bounds(text[0]);
        lemma_byte_offset_monotonic(text, index, text.len() as int);
        assert(text.take(text.len() as int) =~= text);
        lemma_byte_offset_is_char_boundary(rest, index - 1);
    }
}

/// The failure of a scanner that found no lexeme of its kind at the
/// reader's position.
pub fn misplaced(reader: &SourceCodeReader, kind: TokenizeErrorKind) -> (error: TokenizeError)
    ensures
        Scan::misplaced(reader.text(), reader.position(), kind).reported_by(
            Err(error),
            reader.text(),
            reader.position(),
        ),
        0 <= reader.position() <= reader.text().len(),
{
    let offset = reader.offset();
    match reader.peek() {
        None => TokenizeError::new(TokenizeErrorKind::UnexpectedEndOfInput, offset),
        Some(_) => TokenizeError::new(kind, offset),
    }
}

/// The number of bytes that `c` takes in UTF-8.
pub fn char_utf8_length(c: char) -> (length: usize)
    ensures
        length == utf8_width(c),
{
    let scalar: u32 = c as u32;
    if scalar < 0x80 {
        1
    } else if scalar < 0x800 {
        2
    } else if scalar < 0x10000 {
        3
    } else {
        4
    }
}

/// The next token of `text` from `at` on: the end-of-input token at the
/// end of the text, and before it what the scanner finds that the
/// character at `at` selects. A numeric literal begins with a digit or with
/// a `.` that a digit follows; a character that selects no scanner is
/// unknown.
pub open spec fn next_token_scan(
    text: Seq<char>,
    at: int,
    div: DivContext,
    brace: BraceContext,
) -> Scan {
    match char_at(text, at) {
        None => Scan::Lexeme { token_type: TokenType::Eof, end: at },
        Some(c) => {
            if is_whitespace(c) {
                whitespace_scan(text, at)
            } else if is_line_terminator(c) {
                line_terminator_scan(text, at)
            } else if decimal_starts(text, at) {
                numeric_literal_scan(text, at)
            } else if is_punctuator_start(c) || c == '/' || c == '}' {
                punctuator_scan(text, at, div, brace)
            } else if is_identifier_start(c) {
                identifier_scan(text, at)
            } else {
                Scan::Failure { kind: TokenizeErrorKind::UnknownCharacter, at }
            }
        },
    }
}

/// Before the end of the text every token has at least one character and
/// is no end-of-input token, and a failure lies at or behind the place
/// where the token would start, within the text.
pub proof fn lemma_next_token_scan_advances(
    text: Seq<char>,
    at: int,
    div: DivContext,
    brace: BraceContext,
)
    requires
        0 <= at < text.len(),
    ensures
        match next_token_scan(text, at, div, brace) {
            Scan::Lexeme { token_type, end } => token_type != TokenType::Eof && at < end
                <= text.len(),
            Scan::Failure { at: place, .. } => at <= place <= text.len(),
        },
{
    lemma_whitespace_end(text, at + 1);
    lemma_identifier_end(text, at + 1);
    lemma_numeric_literal_scan_bounds(text, at);
    lemma_punctuator_scan_bounds(text, at, div, brace);
}

/// The context decides nothing but where a token begins with `/` or `}`.
pub proof fn lemma_context_decides_slash_and_brace(
    text: Seq<char>,
    at: int,
    div: DivContext,
    brace: BraceContext,
    other_div: DivContext,
    other_brace: BraceContext,
)
    requires
        char_at(text, at) != Some('/'),
        char_at(text, at) != Some('}'),
    ensures
        next_token_scan(text, at, div, brace) == next_token_scan(text, at, other_div, other_brace),
{
    if 0 <= at < text.len() {
        lemma_starts_with_short(text, at, seq!['/', '/']);
        lemma_starts_with_short(text, at, seq!['/', '*']);
        if let Some(p) = longest_punctuator(text, at) {
            assert(is_longest_match(text, at, p));
            lemma_starts_with_short(text, at, p.text());
        }
    }
}

/// The token of a lexeme that starts at `start` and ends before `end`.
pub open spec fn token_of(text: Seq<char>, token_type: TokenType, start: int, end: int) -> Token {
    Token {
        token_type,
        token_start_index: byte_offset(text, start) as usize,
        token_end_index: byte_offset(text, end) as usize,
    }
}

/// The tokens of `text` from `at` on, through the end-of-input token, or
/// the first failure: at the end of the text the end-of-input token alone,
/// and before it the next token and then the tokens from behind it on.
pub open spec fn tokenization(
    text: Seq<char>,
    at: int,
    div: DivContext,
    brace: BraceContext,
) -> Result<Seq<Token>, TokenizeError>
    decreases text.len() - at,
{
    if !(0 <= at < text.len()) {
        Ok(seq![token_of(text, TokenType::Eof, text.len() as int, text.len() as int)])
    } else {
        match next_token_scan(text, at, div, brace) {
            Scan::Failure { kind, at: place } => Err(
                TokenizeError { kind, offset: byte_offset(text, place) as usize },
            ),
            Scan::Lexeme { token_type, end } => {
                proof {
                    lemma_next_token_scan_advances(text, at, div, brace);
                }
                match tokenization(text, end, div, brace) {
                    Ok(rest) => Ok(seq![token_of(text, token_type, at, end)] + rest),
                    Err(error) => Err(error),
                }
            },
        }
    }
}

/// A text that holds neither `/` nor `}` has the same tokens in every
/// context.
pub proof fn lemma_tokenization_without_slash_and_brace(
    text: Seq<char>,
    at: int,
    div: DivContext,
    brace: BraceContext,
    other_div: DivContext,
    other_brace: BraceContext,
)
    requires
        forall|i: int| 0 <= i < text.len() ==> #[trigger] text[i] != '/' && text[i] != '}',
    ensures
        tokenization(text, at, div, brace) == tokenization(text, at, other_div, other_brace),
    decreases text.len() - at,
{
    if 0 <= at < text.len() {
        lemma_context_decides_slash_and_brace(text, at, div, brace, other_div, other_brace);
        lemma_next_token_scan_advances(text, at, div, brace);
        match next_token_scan(text, at, div, brace) {
            Scan::Lexeme { end, .. } => {
                lemma_tokenization_without_slash_and_brace(
                    text,
                    end,
                    div,
                    brace,
                    other_div,
                    other_brace,
                );
            },
            Scan::Failure { .. } => {},
        }
    }
}

/// The token at `index` is no end-of-input token, is not empty, and ends
/// where the next token starts.
pub open spec fn joins(tokens: Seq<Token>, index: int) -> bool {
    &&& tokens[index].token_type != TokenType::Eof
    &&& tokens[index].token_start_index < tokens[index].token_end_index
    &&& tokens[index].token_end_index == tokens[index + 1].token_start_index
}

/// `tokens` go on from one another without gap or overlap, from byte
/// `from` to byte `to`: the first starts at `from`, each but the last is
/// not empty and ends where the next starts, and the last, alone among
/// them, is the end-of-input token, empty at `to`.
pub open spec fn tiles(tokens: Seq<Token>, from: nat, to: nat) -> bool {
    &&& tokens.len() > 0
    &&& tokens[0].token_start_index == from
    &&& forall|i: int| 0 <= i < tokens.len() - 1 ==> #[trigger] joins(tokens, i)
    &&& tokens.last() == (Token {
        token_type: TokenType::Eof,
        token_start_index: to as usize,
        token_end_index: to as usize,
    })
    &&& from <= to <= usize::MAX
}

/// The bytes that `token` covers.
pub open spec fn span_text(bytes: Seq<u8>, token: Token) -> Seq<u8> {
    bytes.subrange(token.token_start_index as int, token.token_end_index as int)
}

/// The bytes that `tokens` cover, one token after the other.
pub open spec fn joined_text(bytes: Seq<u8>, tokens: Seq<Token>) -> Seq<u8>
    decreases tokens.len(),
{
    if tokens.len() == 0 {
        Seq::empty()
    } else {
        span_text(bytes, tokens[0]) + joined_text(bytes, tokens.drop_first())
    }
}

/// Tokens that tile a range of bytes reproduce it: their texts, joined in
/// order, are the bytes of the range, and every span lies in the range.
pub proof fn lemma_tiles_reproduce(bytes: Seq<u8>, tokens: Seq<Token>, from: nat, to: nat)
    requires
        tiles(tokens, from, to),
        to <= bytes.len(),
    ensures
        joined_text(bytes, tokens) == bytes.subrange(from as int, to as int),
        forall|i: int|
            0 <= i < tokens.len() ==> from <= (#[trigger] tokens[i]).token_start_index
                && tokens[i].spans_within(to),
    decreases tokens.len(),
{
    let rest = tokens.drop_first();
    if tokens.len() == 1 {
        assert(joined_text(bytes, rest) =~= Seq::<u8>::empty());
        assert(joined_text(bytes, tokens) =~= bytes.subrange(from as int, to as int));
    } else {
        let next = tokens[0].token_end_index as nat;
        assert(joins(tokens, 0));
        assert(rest[0] == tokens[1]);
        assert forall|i: int| 0 <= i < rest.len() - 1 implies #[trigger] joins(rest, i) by {
            assert(joins(tokens, i + 1));
            assert(rest[i] == tokens[i + 1]);
            assert(rest[i + 1] == tokens[i + 2]);
        }
        assert(rest.last() == tokens.last());
        if rest.len() > 1 {
            assert(joins(rest, 0));
        }
        assert(next <= to) by {
            lemma_tiles_bounds(rest, to);
        }
        assert(tiles(rest, next, to));
        lemma_tiles_reproduce(bytes, rest, next, to);
        assert(joined_text(bytes, tokens) =~= bytes.subrange(from as int, to as int));
        assert forall|i: int| 0 <= i < tokens.len() implies from <= (
        #[trigger] tokens[i]).token_start_index && tokens[i].spans_within(to) by {
            if i > 0 {
                assert(tokens[i] == rest[i - 1]);
            }
        }
    }
}

/// Tokens that end where the next starts start no later than the last of
/// them.
proof fn lemma_tiles_bounds(tokens: Seq<Token>, to: nat)
    requires
        tokens.len() > 0,
        forall|i: int| 0 <= i < tokens.len() - 1 ==> #[trigger] joins(tokens, i),
        tokens.last().token_start_index == to,
    ensures
        tokens[0].token_start_index <= to,
    decreases tokens.len(),
{
    if tokens.len() > 1 {
        let rest = tokens.drop_first();
        assert(joins(tokens, 0));
        assert(rest[0] == tokens[1]);
        assert forall|i: int| 0 <= i < rest.len() - 1 implies #[trigger] joins(rest, i) by {
            assert(joins(tokens, i + 1));
            assert(rest[i] == tokens[i + 1]);
            assert(rest[i + 1] == tokens[i + 2]);
        }
        assert(rest.last() == tokens.last());
        lemma_tiles_bounds(rest, to);
    }
}

/// The tokens of a text from `at` on tile the bytes from the offset of
/// `at` to the end of the text.
pub proof fn lemma_tokenization_tiles(
    text: Seq<char>,
    at: int,
    div: DivContext,
    brace: BraceContext,
)
    requires
        0 <= at <= text.len(),
        byte_offset(text, text.len() as int) <= usize::MAX,
    ensures
        tokenization(text, at, div, brace) matches Ok(tokens) ==> tiles(
            tokens,
            byte_offset(text, at),
            byte_offset(text, text.len() as int),
        ),
    decreases text.len() - at,
{
    if at < text.len() {
        lemma_next_token_scan_advances(text, at, div, brace);
        match next_token_scan(text, at, div, brace) {
            Scan::Lexeme { token_type, end } => {
                lemma_tokenization_tiles(text, end, div, brace);
                lemma_byte_offset_monotonic(text, at, end);
                lemma_byte_offset_monotonic(text, end, text.len() as int);
                match tokenization(text, end, div, brace) {
                    Ok(rest) => {
                        let first = token_of(text, token_type, at, end);
                        let tokens = seq![first] + rest;
                        assert(tokens[0] == first);
                        assert(tokens[1] == rest[0]);
                        assert forall|i: int| 0 <= i < tokens.len() - 1 implies #[trigger] joins(
                            tokens,
                            i,
                        ) by {
                            assert(tokens[i + 1] == rest[i]);
                            if i > 0 {
                                assert(tokens[i] == rest[i - 1]);
                                assert(joins(rest, i - 1));
                            }
                        }
                        assert(tokens.last() == rest.last());
                    },
                    Err(_) => {},
                }
            },
            Scan::Failure { .. } => {},
        }
    }
}

/// The span of `token` starts and ends on a character boundary of `bytes`,
/// so that the bytes it covers are a text.
pub open spec fn on_boundaries(bytes: Seq<u8>, token: Token) -> bool {
    &&& is_char_boundary(bytes, token.token_start_index as int)
    &&& is_char_boundary(bytes, token.token_end_index as int)
}

/// Every token of a text starts and ends on a character boundary of the
/// encoded text.
pub proof fn lemma_tokenization_on_boundaries(
    text: Seq<char>,
    at: int,
    div: DivContext,
    brace: BraceContext,
)
    requires
        0 <= at <= text.len(),
        byte_offset(text, text.len() as int) <= usize::MAX,
    ensures
        tokenization(text, at, div, brace) matches Ok(tokens) ==> forall|i: int|
            0 <= i < tokens.len() ==> on_boundaries(encode_utf8(text), #[trigger] tokens[i]),
    decreases text.len() - at,
{
    let bytes = encode_utf8(text);
    let length = text.len() as int;
    lemma_byte_offset_is_char_boundary(text, length);
    if at < text.len() {
        lemma_next_token_scan_advances(text, at, div, brace);
        match next_token_scan(text, at, div, brace) {
            Scan::Lexeme { token_type, end } => {
                lemma_tokenization_on_boundaries(text, end, div, brace);
                lemma_byte_offset_is_char_boundary(text, at);
                lemma_byte_offset_is_char_boundary(text, end);
                lemma_byte_offset_monotonic(text, at, length);
                lemma_byte_offset_monotonic(text, end, length);
                match tokenization(text, end, div, brace) {
                    Ok(rest) => {
                        let first = token_of(text, token_type, at, end);
                        let tokens = seq![first] + rest;
                        assert forall|i: int| 0 <= i < tokens.len() implies on_boundaries(
                            bytes,
                            #[trigger] tokens[i],
                        ) by {
                            if i > 0 {
                                assert(tokens[i] == rest[i - 1]);
                            }
                        }
                    },
                    Err(_) => {},
                }
            },
            Scan::Failure { .. } => {},
        }
    }
}

/// The tokens of a source tile it: they go on from one another from the
/// first byte to the end-of-input token behind the last, and their texts,
/// joined in order, are the source. Every span lies within the source, on
/// character boundaries.
pub proof fn lemma_tokens_reproduce_source(source: Seq<char>, div: DivContext, brace: BraceContext)
    requires
        encode_utf8(source).len() <= usize::MAX,
    ensures
        tokenization(source, 0, div, brace) matches Ok(tokens) ==> {
            &&& tiles(tokens, 0, encode_utf8(source).len())
            &&& joined_text(encode_utf8(source), tokens) == encode_utf8(source)
            &&& forall|i: int|
                0 <= i < tokens.len() ==> (#[trigger] tokens[i]).spans_within(
                    encode_utf8(source).len(),
                ) && on_boundaries(encode_utf8(source), tokens[i])
        },
{
    let bytes = encode_utf8(source);
    assert(source.take(source.len() as int) =~= source);
    assert(source.take(0) =~= Seq::<char>::empty());
    lemma_tokenization_tiles(source, 0, div, brace);
    lemma_tokenization_on_boundaries(source, 0, div, brace);
    if let Ok(tokens) = tokenization(source, 0, div, brace) {
        lemma_tiles_reproduce(bytes, tokens, 0, bytes.len());
        assert(bytes.subrange(0, bytes.len() as int) =~= bytes);
    }
}

/// `result` is the tokenization of `source`: the list of its tokens
/// through the end-of-input token, or the first failure.
pub open spec fn tokenized(
    source: Seq<char>,
    div: DivContext,
    brace: BraceContext,
    result: Result<TokenList, TokenizeError>,
) -> bool {
    match tokenization(source, 0, div, brace) {
        Ok(tokens) => result matches Ok(list) && list@ == tokens,
        Err(error) => result matches Err(found) && found == error,
    }
}

/// Tokenizing the same source in the same context twice gives the same
/// tokens, or the same failure.
pub proof fn lemma_tokenize_is_deterministic(
    source: Seq<char>,
    div: DivContext,
    brace: BraceContext,
    first: Result<TokenList, TokenizeError>,
    second: Result<TokenList, TokenizeError>,
)
    requires
        tokenized(source, div, brace, first),
        tokenized(source, div, brace, second),
    ensures
        match (first, second) {
            (Ok(a), Ok(b)) => a@ == b@,
            (Err(a), Err(b)) => a == b,
            _ => false,
        },
{
}

/// What has been read, and then what `rest` says of the rest.
pub open spec fn followed_by(
    done: Seq<Token>,
    rest: Result<Seq<Token>, TokenizeError>,
) -> Result<Seq<Token>, TokenizeError> {
    match rest {
        Ok(tokens) => Ok(done + tokens),
        Err(error) => Err(error),
    }
}

/// Reads `source` into its tokens, through the end-of-input token, and
/// stops at the first failure. The context holds for every token.
///
/// The tokens of a source tile it: joined in order, the bytes they cover
/// are the source, with no gap and no overlap, and the end-of-input token
/// stands empty at the end. Every span lies within the source and on
/// character boundaries, so that the source can be sliced by it.
pub fn tokenize(source: &str, div: DivContext, brace: BraceContext) -> (result: Result<
    TokenList,
    TokenizeError,
>)
    ensures
        tokenized(source@, div, brace, result),
        result matches Ok(list) ==> {
            &&& tiles(list@, 0, encode_utf8(source@).len())
            &&& joined_text(encode_utf8(source@), list@) == encode_utf8(source@)
            &&& forall|i: int|
                0 <= i < list@.len() ==> (#[trigger] list@[i]).spans_within(
                    encode_utf8(source@).len(),
                ) && on_boundaries(encode_utf8(source@), list@[i])
        },
{
    let mut reader = SourceCodeReader::new(source);
    let mut list = TokenList::new(Vec::new());
    let ghost text = source@;
    loop
        invariant
            reader.text() == text,
            text == source@,
            tokenization(text, 0, div, brace) == followed_by(
                list@,
                tokenization(text, reader.position(), div, brace),
            ),
        decreases text.len() - reader.position(),
    {
        let ghost at = reader.position();
        let ghost done = list@;
        let offset = reader.offset();
        proof {
            if at < text.len() {
                lemma_next_token_scan_advances(text, at, div, brace);
                let end = next_token_scan(text, at, div, brace).rest();
                lemma_byte_offset_monotonic(text, at, text.len() as int);
                lemma_byte_offset_monotonic(text, end, text.len() as int);
            }
        }
        match reader.read_next_token(div, brace) {
            Err(error) => {
                return Err(error);
            },
            Ok(token) => {
                list.append(token);
                proof {
                    if at < text.len() {
                        let end = reader.position();
                        match tokenization(text, end, div, brace) {
                            Ok(rest) => {
                                assert(done + (seq![token] + rest) =~= done.push(token) + rest);
                            },
                            Err(_) => {},
                        }
                    }
                }
                if token.token_type == TokenType::Eof {
                    proof {
                        assert(done + seq![token] =~= done.push(token));
                        assert(text.take(text.len() as int) =~= text);
                        lemma_tokens_reproduce_source(text, div, brace);
                    }
                    return Ok(list);
                }
            },
        }
    }
}

} // verus!
