use vstd::prelude::*;
use vstd::utf8::encode_utf8;
use crate::character_patterns::{classify, CharacterClass};
use crate::token::structs::context::{BraceContext, DivContext};
use crate::token::structs::error::{TokenizeError, TokenizeErrorKind};
use crate::token::structs::token::{Token, TokenType};
use crate::token::tokenize::identifier::{identifier_start, tokenize_identifier};
use crate::token::tokenize::line_terminator::tokenize_line_terminator;
use crate::token::tokenize::literal::tokenize_numeric_literal;
use crate::token::tokenize::punctuator::tokenize_punctuator;
use crate::token::tokenize::whitespace::tokenize_whitespace;
use crate::token::tokenize::{
    byte_offset, char_utf8_length, lemma_byte_offset_monotonic, lemma_byte_offset_step,
    next_token_scan, scanned,
};

verus! {

/// A cursor over a source text. It hands out the code points in source
/// order, each with the byte offset of its first byte, and can look ahead
/// without moving. Advancing is the only thing that changes it.
#[derive(Debug)]
pub struct SourceCodeReader<'a> {
    source: &'a str,
    /// Each code point of the source with its byte offset.
    entries: Vec<(usize, char)>,
    /// The length of the source in bytes.
    end_offset: usize,
    /// How many code points have been consumed.
    index: usize,
}

impl<'a> Clone for SourceCodeReader<'a> {
    /// A second reader over the same source, at the same position.
    fn clone(&self) -> (reader: Self)
        ensures
            reader.text() == self.text(),
            reader.position() == self.position(),
    {
        proof {
            use_type_invariant(self);
        }
        let mut entries: Vec<(usize, char)> = Vec::new();
        let mut i: usize = 0;
        while i < self.entries.len()
            invariant
                i <= self.entries.len(),
                entries@ == self.entries@.take(i as int),
            decreases self.entries.len() - i,
        {
            entries.push(self.entries[i]);
            assert(self.entries@.take(i as int).push(self.entries@[i as int])
                =~= self.entries@.take(i + 1));
            i = i + 1;
        }
        assert(entries@ =~= self.entries@);
        SourceCodeReader {
            source: self.source,
            entries,
            end_offset: self.end_offset,
            index: self.index,
        }
    }
}

impl<'a> SourceCodeReader<'a> {
    #[verifier::type_invariant]
    spec fn well_formed(self) -> bool {
        &&& self.index <= self.entries.len()
        &&& self.entries.len() == self.source@.len()
        &&& self.end_offset == byte_offset(self.source@, self.source@.len() as int)
        &&& forall|i: int|
            0 <= i < self.entries.len() ==> (#[trigger] self.entries[i]) == (
                byte_offset(self.source@, i) as usize,
                self.source@[i],
            ) && byte_offset(self.source@, i) <= usize::MAX
    }

    /// The source text, as code points.
    pub closed spec fn text(&self) -> Seq<char> {
        self.source@
    }

    /// The number of code points consumed so far.
    pub closed spec fn position(&self) -> int {
        self.index as int
    }

    /// What is `ahead` code points past the position of a reader over `text`
    /// that stands at `position`: the byte offset and the code point, or
    /// nothing past the end.
    pub open spec fn lookahead(text: Seq<char>, position: int, ahead: int) -> Option<
        (usize, char),
    > {
        if 0 <= position + ahead < text.len() {
            Some((byte_offset(text, position + ahead) as usize, text[position + ahead]))
        } else {
            None
        }
    }

    /// A reader at the start of `source`.
    pub fn new(source: &'a str) -> (reader: SourceCodeReader<'a>)
        ensures
            reader.text() == source@,
            reader.position() == 0,
    {
        let byte_length = source.as_bytes().len();
        let mut entries: Vec<(usize, char)> = Vec::new();
        let mut offset: usize = 0;
        for c in it: source.chars()
            invariant
                it.seq() == source@,
                entries.len() == it.index(),
                byte_length == encode_utf8(source@).len(),
                offset == byte_offset(source@, it.index()),
                forall|i: int|
                    0 <= i < entries.len() ==> (#[trigger] entries[i]) == (
                        byte_offset(source@, i) as usize,
                        source@[i],
                    ) && byte_offset(source@, i) <= usize::MAX,
        {
            proof {
                let i = it.index();
                lemma_byte_offset_step(source@, i);
                lemma_byte_offset_monotonic(source@, i + 1, source@.len() as int);
                assert(source@.take(source@.len() as int) =~= source@);
            }
            entries.push((offset, c));
            offset = offset + char_utf8_length(c);
        }
        assert(source@.take(source@.len() as int) =~= source@);
        SourceCodeReader { source, entries, end_offset: offset, index: 0 }
    }

    /// The source text.
    pub fn source(&self) -> (source: &'a str)
        ensures
            source@ == self.text(),
            0 <= self.position() <= self.text().len(),
    {
        proof {
            use_type_invariant(self);
        }
        self.source
    }

    /// The lookahead: the next code point and its byte offset, if any is
    /// left. The reader does not move.
    pub fn peek(&self) -> (next: Option<(usize, char)>)
        ensures
            next == Self::lookahead(self.text(), self.position(), 0),
            0 <= self.position() <= self.text().len(),
            byte_offset(self.text(), self.text().len() as int) <= usize::MAX,
    {
        proof {
            use_type_invariant(self);
        }
        if self.index < self.entries.len() {
            Some(self.entries[self.index])
        } else {
            None
        }
    }

    /// The code point that was consumed last, and its byte offset, if any
    /// was consumed. The reader does not move.
    pub fn previous(&self) -> (last: Option<(usize, char)>)
        ensures
            last == Self::lookahead(self.text(), self.position(), -1),
            0 <= self.position() <= self.text().len(),
            byte_offset(self.text(), self.text().len() as int) <= usize::MAX,
    {
        proof {
            use_type_invariant(self);
        }
        if self.index > 0 {
            Some(self.entries[self.index - 1])
        } else {
            None
        }
    }

    /// The code point `ahead` places past the lookahead, and its byte
    /// offset, if the source reaches that far. The reader does not move.
    pub fn peek_nth(&self, ahead: usize) -> (next: Option<(usize, char)>)
        ensures
            next == Self::lookahead(self.text(), self.position(), ahead as int),
            0 <= self.position() <= self.text().len(),
    {
        proof {
            use_type_invariant(self);
        }
        if ahead < self.entries.len() - self.index {
            Some(self.entries[self.index + ahead])
        } else {
            None
        }
    }

    /// Consumes the lookahead and returns it. At the end of the source it
    /// returns nothing and the reader stays where it is.
    pub fn advance(&mut self) -> (next: Option<(usize, char)>)
        ensures
            final(self).text() == old(self).text(),
            next == Self::lookahead(old(self).text(), old(self).position(), 0),
            final(self).position() == if next is Some {
                old(self).position() + 1
            } else {
                old(self).position()
            },
            0 <= old(self).position() <= old(self).text().len(),
    {
        proof {
            use_type_invariant(&*self);
        }
        if self.index < self.entries.len() {
            let entry = self.entries[self.index];
            self.index = self.index + 1;
            Some(entry)
        } else {
            None
        }
    }

    /// Consumes `count` code points, or all that are left if they are fewer.
    pub fn advance_by(&mut self, count: usize)
        ensures
            final(self).text() == old(self).text(),
            final(self).position() == if old(self).position() + count <= old(self).text().len() {
                old(self).position() + count
            } else {
                old(self).text().len() as int
            },
            0 <= old(self).position() <= old(self).text().len(),
    {
        proof {
            use_type_invariant(&*self);
        }
        if count <= self.entries.len() - self.index {
            self.index = self.index + count;
        } else {
            self.index = self.entries.len();
        }
    }

    /// Reads the next token. At the end of the source the token is the
    /// end-of-input token, as often as it is asked for. After a failure the
    /// reader rests on the offset that the error carries.
    pub fn read_next_token(&mut self, div: DivContext, brace: BraceContext) -> (result: Result<
        Token,
        TokenizeError,
    >)
        ensures
            scanned(
                old(self),
                final(self),
                result,
                next_token_scan(old(self).text(), old(self).position(), div, brace),
            ),
    {
        let offset = self.offset();
        match self.peek() {
            None => Ok(Token::new(TokenType::Eof, offset, offset)),
            Some((_, c)) => {
                match classify(c) {
                    CharacterClass::Whitespace => tokenize_whitespace(self),
                    CharacterClass::LineTerminator => tokenize_line_terminator(self),
                    CharacterClass::DecimalDigit => tokenize_numeric_literal(self),
                    CharacterClass::PunctuatorStart => {
                        let before_digit = match self.peek_nth(1) {
                            Some((_, d)) => classify(d) == CharacterClass::DecimalDigit,
                            None => false,
                        };
                        if c == '.' && before_digit {
                            tokenize_numeric_literal(self)
                        } else {
                            tokenize_punctuator(self, div, brace)
                        }
                    },
                    CharacterClass::Other => {
                        if c == '/' || c == '}' {
                            tokenize_punctuator(self, div, brace)
                        } else if identifier_start(c) {
                            tokenize_identifier(self)
                        } else {
                            Err(TokenizeError::new(TokenizeErrorKind::UnknownCharacter, offset))
                        }
                    },
                }
            },
        }
    }

    /// The byte offset of the lookahead; at the end of the source, the
    /// length of the source in bytes.
    pub fn offset(&self) -> (offset: usize)
        ensures
            offset == byte_offset(self.text(), self.position()),
            0 <= self.position() <= self.text().len(),
            byte_offset(self.text(), self.text().len() as int) <= usize::MAX,
    {
        proof {
            use_type_invariant(self);
        }
        if self.index < self.entries.len() {
            self.entries[self.index].0
        } else {
            self.end_offset
        }
    }
}

} // verus!
