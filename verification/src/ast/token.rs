//! The tokens of the arithmetic front end: numbers, operators and comments.
use vstd::prelude::*;
use vstd::string::StringExecFns;
use crate::ast::reader_struct::SourceCodeReader;
use crate::character_patterns::is_decimal_digit;
use crate::token::structs::punctuator::Punctuator;
use crate::token::tokenize::comment::{comment_close, lemma_comment_close};
use crate::token::tokenize::literal::{
    decimal_digits_end, digit_of, lemma_decimal_digits_end, Radix,
};
use crate::token::tokenize::punctuator::{
    is_longest_match, longest_punctuator, longest_punctuator_at, looks_at,
};
use crate::token::tokenize::{char_at, starts_with};

verus! {

/// The contract of `String::push` of the standard library, taken from its
/// documentation and not proved here: the given character is appended to
/// the end of the string, and nothing else of the string changes.
pub assume_specification[ String::push ](text: &mut String, ch: char)
    ensures
        final(text)@ == old(text)@.push(ch),
;

/// A token of the arithmetic front end. Numbers and comments hold their
/// text; the operators are the punctuators of the language.
#[derive(PartialEq, Eq, Debug)]
pub enum Token {
    /// a run of decimal digits
    Number(String),
    /// a name
    Identifier(String),
    /// `=`
    Assign,
    /// `+`
    Plus,
    /// `-`
    Minus,
    /// `*`
    Multiple,
    /// `**`
    Exponent,
    /// `/`
    Divide,
    /// `%`
    Remainder,
    /// `+=`
    PlusAssign,
    /// `-=`
    MinusAssign,
    /// `*=`
    MultipleAssign,
    /// `**=`
    ExponentAssign,
    /// `/=`
    DivideAssign,
    /// `%=`
    RemainderAssign,
    /// `++`
    PlusPlus,
    /// `--`
    MinusMinus,
    /// `~`
    BitNot,
    /// `|`
    BitOr,
    /// `&`
    BitAnd,
    /// `^`
    BitXor,
    /// `|=`
    BitOrAssign,
    /// `&=`
    BitAndAssign,
    /// `^=`
    BitXorAssign,
    /// `<<`
    LeftShift,
    /// `>>`
    RightShift,
    /// `>>>`
    UnsignedRightShift,
    /// `<<=`
    LeftShiftAssign,
    /// `>>=`
    RightShiftAssign,
    /// `>>>=`
    UnsignedRightShiftAssign,
    /// `==`
    Equal,
    /// `!=`
    NotEqual,
    /// `===`
    StrictEqual,
    /// `!==`
    StrictNotEqual,
    /// `>`
    GreaterThan,
    /// `>=`
    GreaterThanEqual,
    /// `<`
    LessThan,
    /// `<=`
    LessThanEqual,
    /// `||`
    Or,
    /// `&&`
    And,
    /// `!`
    Not,
    /// `||=`
    OrAssign,
    /// `&&=`
    AndAssign,
    /// `?`
    Question,
    /// `??`
    QuestionQuestion,
    /// `??=`
    QuestionQuestionAssign,
    /// `?.`
    QuestionDot,
    /// `(`
    ParenStart,
    /// `)`
    ParenEnd,
    /// `[`
    BracketStart,
    /// `]`
    BracketEnd,
    /// `{`
    BraceStart,
    /// `}`
    BraceEnd,
    /// `.`
    Dot,
    /// `,`
    Comma,
    /// `:`
    Colon,
    /// `;`
    Semicolon,
    /// `...`
    SpreadDots,
    /// `=>`
    Arrow,
    /// `''`
    SingleQuoteStringLiteral,
    /// `""`
    DoubleQuoteStringLiteral,
    /// ` `` `
    BackQuoteTemplateLiteral,
    /// `//` and the text behind it
    LineComment(String),
    /// `/*` through `*/`
    BlockComment(String),
    /// the end of the tokens
    Eof,
}

/// What a token is, with the text it holds as characters.
pub enum TokenView {
    Number(Seq<char>),
    Identifier(Seq<char>),
    LineComment(Seq<char>),
    BlockComment(Seq<char>),
    /// A token that holds no text.
    Plain(Token),
}

impl View for Token {
    type V = TokenView;

    open spec fn view(&self) -> TokenView {
        match self {
            Token::Number(text) => TokenView::Number(text@),
            Token::Identifier(text) => TokenView::Identifier(text@),
            Token::LineComment(text) => TokenView::LineComment(text@),
            Token::BlockComment(text) => TokenView::BlockComment(text@),
            _ => TokenView::Plain(*self),
        }
    }
}

impl Clone for Token {
    fn clone(&self) -> (token: Token)
        ensures
            token == *self,
    {
        match self {
            Token::Number(text) => Token::Number(text.clone()),
            Token::Identifier(text) => Token::Identifier(text.clone()),
            Token::Assign => Token::Assign,
            Token::Plus => Token::Plus,
            Token::Minus => Token::Minus,
            Token::Multiple => Token::Multiple,
            Token::Exponent => Token::Exponent,
            Token::Divide => Token::Divide,
            Token::Remainder => Token::Remainder,
            Token::PlusAssign => Token::PlusAssign,
            Token::MinusAssign => Token::MinusAssign,
            Token::MultipleAssign => Token::MultipleAssign,
            Token::ExponentAssign => Token::ExponentAssign,
            Token::DivideAssign => Token::DivideAssign,
            Token::RemainderAssign => Token::RemainderAssign,
            Token::PlusPlus => Token::PlusPlus,
            Token::MinusMinus => Token::MinusMinus,
            Token::BitNot => Token::BitNot,
            Token::BitOr => Token::BitOr,
            Token::BitAnd => Token::BitAnd,
            Token::BitXor => Token::BitXor,
            Token::BitOrAssign => Token::BitOrAssign,
            Token::BitAndAssign => Token::BitAndAssign,
            Token::BitXorAssign => Token::BitXorAssign,
            Token::LeftShift => Token::LeftShift,
            Token::RightShift => Token::RightShift,
            Token::UnsignedRightShift => Token::UnsignedRightShift,
            Token::LeftShiftAssign => Token::LeftShiftAssign,
            Token::RightShiftAssign => Token::RightShiftAssign,
            Token::UnsignedRightShiftAssign => Token::UnsignedRightShiftAssign,
            Token::Equal => Token::Equal,
            Token::NotEqual => Token::NotEqual,
            Token::StrictEqual => Token::StrictEqual,
            Token::StrictNotEqual => Token::StrictNotEqual,
            Token::GreaterThan => Token::GreaterThan,
            Token::GreaterThanEqual => Token::GreaterThanEqual,
            Token::LessThan => Token::LessThan,
            Token::LessThanEqual => Token::LessThanEqual,
            Token::Or => Token::Or,
            Token::And => Token::And,
            Token::Not => Token::Not,
            Token::OrAssign => Token::OrAssign,
            Token::AndAssign => Token::AndAssign,
            Token::Question => Token::Question,
            Token::QuestionQuestion => Token::QuestionQuestion,
            Token::QuestionQuestionAssign => Token::QuestionQuestionAssign,
            Token::QuestionDot => Token::QuestionDot,
            Token::ParenStart => Token::ParenStart,
            Token::ParenEnd => Token::ParenEnd,
            Token::BracketStart => Token::BracketStart,
            Token::BracketEnd => Token::BracketEnd,
            Token::BraceStart => Token::BraceStart,
            Token::BraceEnd => Token::BraceEnd,
            Token::Dot => Token::Dot,
            Token::Comma => Token::Comma,
            Token::Colon => Token::Colon,
            Token::Semicolon => Token::Semicolon,
            Token::SpreadDots => Token::SpreadDots,
            Token::Arrow => Token::Arrow,
            Token::SingleQuoteStringLiteral => Token::SingleQuoteStringLiteral,
            Token::DoubleQuoteStringLiteral => Token::DoubleQuoteStringLiteral,
            Token::BackQuoteTemplateLiteral => Token::BackQuoteTemplateLiteral,
            Token::LineComment(text) => Token::LineComment(text.clone()),
            Token::BlockComment(text) => Token::BlockComment(text.clone()),
            Token::Eof => Token::Eof,
        }
    }
}

impl Token {
    /// The token that stands for a punctuator.
    pub open spec fn of_punctuator(p: Punctuator) -> Token {
        match p {
            Punctuator::LeftBrace => Token::BraceStart,
            Punctuator::RightBrace => Token::BraceEnd,
            Punctuator::LeftParen => Token::ParenStart,
            Punctuator::RightParen => Token::ParenEnd,
            Punctuator::LeftBracket => Token::BracketStart,
            Punctuator::RightBracket => Token::BracketEnd,
            Punctuator::Dot => Token::Dot,
            Punctuator::DotThree => Token::SpreadDots,
            Punctuator::SemiColon => Token::Semicolon,
            Punctuator::Comma => Token::Comma,
            Punctuator::LessThan => Token::LessThan,
            Punctuator::GreaterThan => Token::GreaterThan,
            Punctuator::LessThanEqual => Token::LessThanEqual,
            Punctuator::GreaterThanEqual => Token::GreaterThanEqual,
            Punctuator::Equal => Token::Equal,
            Punctuator::NotEqual => Token::NotEqual,
            Punctuator::StrictEqual => Token::StrictEqual,
            Punctuator::StrictNotEqual => Token::StrictNotEqual,
            Punctuator::Plus => Token::Plus,
            Punctuator::Minus => Token::Minus,
            Punctuator::Multiply => Token::Multiple,
            Punctuator::Divide => Token::Divide,
            Punctuator::Remainder => Token::Remainder,
            Punctuator::Exponentiation => Token::Exponent,
            Punctuator::Increment => Token::PlusPlus,
            Punctuator::Decrement => Token::MinusMinus,
            Punctuator::LeftShift => Token::LeftShift,
            Punctuator::RightShift => Token::RightShift,
            Punctuator::UnsignedRightShift => Token::UnsignedRightShift,
            Punctuator::BitAnd => Token::BitAnd,
            Punctuator::BitOr => Token::BitOr,
            Punctuator::BitXor => Token::BitXor,
            Punctuator::LogicalNot => Token::Not,
            Punctuator::BitNot => Token::BitNot,
            Punctuator::LogicalAnd => Token::And,
            Punctuator::LogicalOr => Token::Or,
            Punctuator::NullishCoalesce => Token::QuestionQuestion,
            Punctuator::TernaryQuestion => Token::Question,
            Punctuator::TernaryColon => Token::Colon,
            Punctuator::Assign => Token::Assign,
            Punctuator::PlusAssign => Token::PlusAssign,
            Punctuator::MinusAssign => Token::MinusAssign,
            Punctuator::MultiplyAssign => Token::MultipleAssign,
            Punctuator::DivideAssign => Token::DivideAssign,
            Punctuator::RemainderAssign => Token::RemainderAssign,
            Punctuator::ExponentiationAssign => Token::ExponentAssign,
            Punctuator::LeftShiftAssign => Token::LeftShiftAssign,
            Punctuator::RightShiftAssign => Token::RightShiftAssign,
            Punctuator::UnsignedRightShiftAssign => Token::UnsignedRightShiftAssign,
            Punctuator::BitAndAssign => Token::BitAndAssign,
            Punctuator::BitOrAssign => Token::BitOrAssign,
            Punctuator::BitXorAssign => Token::BitXorAssign,
            Punctuator::LogicalAndAssign => Token::AndAssign,
            Punctuator::LogicalOrAssign => Token::OrAssign,
            Punctuator::NullishCoalesceAssign => Token::QuestionQuestionAssign,
            Punctuator::Arrow => Token::Arrow,
            Punctuator::OptionalChain => Token::QuestionDot,
        }
    }

    /// The token that stands for a punctuator.
    pub fn from_punctuator(p: Punctuator) -> (token: Token)
        ensures
            token == Token::of_punctuator(p),
    {
        match p {
            Punctuator::LeftBrace => Token::BraceStart,
            Punctuator::RightBrace => Token::BraceEnd,
            Punctuator::LeftParen => Token::ParenStart,
            Punctuator::RightParen => Token::ParenEnd,
            Punctuator::LeftBracket => Token::BracketStart,
            Punctuator::RightBracket => Token::BracketEnd,
            Punctuator::Dot => Token::Dot,
            Punctuator::DotThree => Token::SpreadDots,
            Punctuator::SemiColon => Token::Semicolon,
            Punctuator::Comma => Token::Comma,
            Punctuator::LessThan => Token::LessThan,
            Punctuator::GreaterThan => Token::GreaterThan,
            Punctuator::LessThanEqual => Token::LessThanEqual,
            Punctuator::GreaterThanEqual => Token::GreaterThanEqual,
            Punctuator::Equal => Token::Equal,
            Punctuator::NotEqual => Token::NotEqual,
            Punctuator::StrictEqual => Token::StrictEqual,
            Punctuator::StrictNotEqual => Token::StrictNotEqual,
            Punctuator::Plus => Token::Plus,
            Punctuator::Minus => Token::Minus,
            Punctuator::Multiply => Token::Multiple,
            Punctuator::Divide => Token::Divide,
            Punctuator::Remainder => Token::Remainder,
            Punctuator::Exponentiation => Token::Exponent,
            Punctuator::Increment => Token::PlusPlus,
            Punctuator::Decrement => Token::MinusMinus,
            Punctuator::LeftShift => Token::LeftShift,
            Punctuator::RightShift => Token::RightShift,
            Punctuator::UnsignedRightShift => Token::UnsignedRightShift,
            Punctuator::BitAnd => Token::BitAnd,
            Punctuator::BitOr => Token::BitOr,
            Punctuator::BitXor => Token::BitXor,
            Punctuator::LogicalNot => Token::Not,
            Punctuator::BitNot => Token::BitNot,
            Punctuator::LogicalAnd => Token::And,
            Punctuator::LogicalOr => Token::Or,
            Punctuator::NullishCoalesce => Token::QuestionQuestion,
            Punctuator::TernaryQuestion => Token::Question,
            Punctuator::TernaryColon => Token::Colon,
            Punctuator::Assign => Token::Assign,
            Punctuator::PlusAssign => Token::PlusAssign,
            Punctuator::MinusAssign => Token::MinusAssign,
            Punctuator::MultiplyAssign => Token::MultipleAssign,
            Punctuator::DivideAssign => Token::DivideAssign,
            Punctuator::RemainderAssign => Token::RemainderAssign,
            Punctuator::ExponentiationAssign => Token::ExponentAssign,
            Punctuator::LeftShiftAssign => Token::LeftShiftAssign,
            Punctuator::RightShiftAssign => Token::RightShiftAssign,
            Punctuator::UnsignedRightShiftAssign => Token::UnsignedRightShiftAssign,
            Punctuator::BitAndAssign => Token::BitAndAssign,
            Punctuator::BitOrAssign => Token::BitOrAssign,
            Punctuator::BitXorAssign => Token::BitXorAssign,
            Punctuator::LogicalAndAssign => Token::AndAssign,
            Punctuator::LogicalOrAssign => Token::OrAssign,
            Punctuator::NullishCoalesceAssign => Token::QuestionQuestionAssign,
            Punctuator::Arrow => Token::Arrow,
            Punctuator::OptionalChain => Token::QuestionDot,
        }
    }
}

/// The views of `tokens`, in order.
pub open spec fn views(tokens: Seq<Token>) -> Seq<TokenView> {
    tokens.map_values(|token: Token| token@)
}

/// The characters that `make_token_list` hands to the operator scanner:
/// those that open a punctuator, and the three quotes.
pub open spec fn is_operator_start(c: char) -> bool {
    ||| c == '='
    ||| c == '+'
    ||| c == '-'
    ||| c == '*'
    ||| c == '/'
    ||| c == '%'
    ||| c == '<'
    ||| c == '>'
    ||| c == '|'
    ||| c == '&'
    ||| c == '^'
    ||| c == '~'
    ||| c == '!'
    ||| c == '?'
    ||| c == '.'
    ||| c == ','
    ||| c == ':'
    ||| c == ';'
    ||| c == '\''
    ||| c == '"'
    ||| c == '`'
    ||| c == '('
    ||| c == ')'
    ||| c == '['
    ||| c == ']'
    ||| c == '{'
    ||| c == '}'
}

/// What a scanner of the front end finds at a position of a text.
pub enum Piece {
    /// This token, which ends before `end`.
    Found { token: TokenView, end: int },
    /// No token, and this to say why.
    Failed { message: Seq<char> },
}

/// The first line feed at `from` or later, or the end of the text.
pub open spec fn line_feed(text: Seq<char>, from: int) -> int
    decreases text.len() - from,
{
    if 0 <= from < text.len() && text[from] != '\n' {
        line_feed(text, from + 1)
    } else {
        from
    }
}

/// A line comment holds what stands between `//` and the line feed. The
/// line feed is consumed with it.
pub open spec fn line_comment_piece(text: Seq<char>, at: int) -> Piece {
    let feed = line_feed(text, at + 2);
    Piece::Found {
        token: TokenView::LineComment(text.subrange(at + 2, feed)),
        end: if feed < text.len() {
            feed + 1
        } else {
            feed
        },
    }
}

/// Where the block comment that opens at `at` ends: behind the first `*/`
/// that begins behind the `/` of the opening, so that `/*/` is a whole
/// comment, or at the end of the text.
pub open spec fn block_comment_end(text: Seq<char>, at: int) -> int {
    match comment_close(text, at + 1) {
        Some(end) => end,
        None => text.len() as int,
    }
}

/// A block comment holds all its text, the delimiters too.
pub open spec fn block_comment_piece(text: Seq<char>, at: int) -> Piece {
    let end = block_comment_end(text, at);
    Piece::Found { token: TokenView::BlockComment(text.subrange(at, end)), end }
}

/// A number holds the run of decimal digits that begins at `at`.
pub open spec fn number_piece(text: Seq<char>, at: int) -> Piece {
    let end = decimal_digits_end(text, at);
    Piece::Found { token: TokenView::Number(text.subrange(at, end)), end }
}

/// What the operator scanner finds: a comment behind `/*` or `//`, else
/// the longest punctuator that the text holds. Two dots that no third
/// follows are read as one `.` token. String and template literals are
/// refused.
pub open spec fn operator_piece(text: Seq<char>, at: int) -> Piece {
    match char_at(text, at) {
        None => Piece::Failed { message: "no operator, end of source"@ },
        Some(c) => {
            if c == '\'' || c == '"' {
                Piece::Failed { message: "string literals are not supported"@ }
            } else if c == '`' {
                Piece::Failed { message: "template literals are not supported"@ }
            } else if starts_with(text, at, seq!['/', '*']) {
                block_comment_piece(text, at)
            } else if starts_with(text, at, seq!['/', '/']) {
                line_comment_piece(text, at)
            } else {
                match longest_punctuator(text, at) {
                    None => Piece::Failed { message: seq![c] + " is not operator"@ },
                    Some(p) => {
                        if p == Punctuator::Dot && starts_with(text, at, seq!['.', '.']) {
                            Piece::Found { token: TokenView::Plain(Token::Dot), end: at + 2 }
                        } else {
                            Piece::Found {
                                token: TokenView::Plain(Token::of_punctuator(p)),
                                end: at + p.text().len(),
                            }
                        }
                    },
                }
            }
        },
    }
}

/// The next thing in the text at `at`.
pub enum Step {
    /// A blank or a line feed, which is skipped.
    Skip,
    /// A token, or the failure to read one.
    Read(Piece),
}

/// What `make_token_list` does with the character at `at`.
pub open spec fn step_at(text: Seq<char>, at: int) -> Step {
    let c = text[at];
    if is_operator_start(c) {
        Step::Read(operator_piece(text, at))
    } else if is_decimal_digit(c) {
        Step::Read(number_piece(text, at))
    } else if c == ' ' || c == '\n' {
        Step::Skip
    } else {
        Step::Read(Piece::Failed { message: "unknown character "@ + seq![c] })
    }
}

/// A token that is read has at least one character and ends within the
/// text.
pub proof fn lemma_step_advances(text: Seq<char>, at: int)
    requires
        0 <= at < text.len(),
    ensures
        step_at(text, at) matches Step::Read(Piece::Found { end, .. }) ==> at < end <= text.len(),
{
    lemma_decimal_digits_end(text, at + 1);
    lemma_comment_close(text, at + 1);
    lemma_line_feed(text, at + 1);
    if at + 2 <= text.len() {
        lemma_line_feed(text, at + 2);
    }
    if let Some(p) = longest_punctuator(text, at) {
        assert(is_longest_match(text, at, p));
        assert(1 <= p.text().len());
    }
}

/// The line feed that `line_feed` finds is the first from `from` on.
pub proof fn lemma_line_feed(text: Seq<char>, from: int)
    requires
        0 <= from <= text.len(),
    ensures
        from <= line_feed(text, from) <= text.len(),
        forall|i: int| from <= i < line_feed(text, from) ==> #[trigger] text[i] != '\n',
        line_feed(text, from) < text.len() ==> text[line_feed(text, from)] == '\n',
    decreases text.len() - from,
{
    if from < text.len() && text[from] != '\n' {
        lemma_line_feed(text, from + 1);
    }
}

/// `token`, and then what `rest` says of the rest.
pub open spec fn and_then_views(
    token: TokenView,
    rest: Result<Seq<TokenView>, Seq<char>>,
) -> Result<Seq<TokenView>, Seq<char>> {
    match rest {
        Ok(tokens) => Ok(seq![token] + tokens),
        Err(message) => Err(message),
    }
}

/// The tokens of `text` from `at` on, or the message of the first failure.
/// Blanks and line feeds separate tokens and leave none.
pub open spec fn token_views(text: Seq<char>, at: int) -> Result<Seq<TokenView>, Seq<char>>
    decreases text.len() - at,
{
    if !(0 <= at < text.len()) {
        Ok(Seq::empty())
    } else {
        match step_at(text, at) {
            Step::Skip => token_views(text, at + 1),
            Step::Read(Piece::Failed { message }) => Err(message),
            Step::Read(Piece::Found { token, end }) => {
                proof {
                    lemma_step_advances(text, at);
                }
                and_then_views(token, token_views(text, end))
            },
        }
    }
}

/// A scanner of the front end took the reader from `before` to `after` and
/// returned `result`, and `piece` is what there was to find. The text is
/// the same; behind a token the reader rests behind it, and after a
/// failure where it was.
pub open spec fn pieced(
    before: &SourceCodeReader,
    after: &SourceCodeReader,
    result: Result<Token, String>,
    piece: Piece,
) -> bool {
    &&& after.text() == before.text()
    &&& match piece {
        Piece::Found { token, end } => {
            &&& result matches Ok(found)
            &&& found@ == token
            &&& after.position() == end
        },
        Piece::Failed { message } => {
            &&& result matches Err(text)
            &&& text@ == message
            &&& after.position() == before.position()
        },
    }
}

fn operator_start(c: char) -> (b: bool)
    ensures
        b == is_operator_start(c),
{
    match c {
        '=' | '+' | '-' | '*' | '/' | '%' | '<' | '>' | '|' | '&' | '^' | '~' | '!' | '?' | '.'
        | ',' | ':' | ';' | '\'' | '"' | '`' | '(' | ')' | '[' | ']' | '{' | '}' => true,
        _ => false,
    }
}

/// Reads `source` into the tokens of the front end.
pub fn make_token_list(source: &str) -> (result: Result<Vec<Token>, String>)
    ensures
        match token_views(source@, 0) {
            Ok(tokens) => result matches Ok(found) && views(found@) == tokens,
            Err(message) => result matches Err(text) && text@ == message,
        },
{
    let mut tokens: Vec<Token> = Vec::new();
    let mut reader = SourceCodeReader::new(source);
    let ghost text = source@;
    assert(views(tokens@) =~= Seq::<TokenView>::empty());
    loop
        invariant
            reader.text() == text,
            text == source@,
            token_views(text, 0) == match token_views(text, reader.position()) {
                Ok(rest) => Ok(views(tokens@) + rest),
                Err(message) => Err(message),
            },
        decreases text.len() - reader.position(),
    {
        let ghost at = reader.position();
        let ghost done = tokens@;
        match reader.peek() {
            None => {
                assert(views(tokens@) + Seq::<TokenView>::empty() =~= views(tokens@));
                return Ok(tokens);
            },
            Some((_, c)) => {
                proof {
                    lemma_step_advances(text, at);
                }
                if operator_start(c) || digit_of(Radix::Decimal, c) {
                    let read = if operator_start(c) {
                        tokenize_operator(&mut reader)
                    } else {
                        tokenize_decimal_number(&mut reader)
                    };
                    match read {
                        Ok(token) => {
                            proof {
                                assert(views(done.push(token)) =~= views(done).push(token@));
                                match token_views(text, reader.position()) {
                                    Ok(rest) => {
                                        assert(views(done) + (seq![token@] + rest) =~= views(
                                            done,
                                        ).push(token@) + rest);
                                    },
                                    Err(_) => {},
                                }
                            }
                            tokens.push(token);
                        },
                        Err(message) => {
                            return Err(message);
                        },
                    }
                } else if c == ' ' || c == '\n' {
                    reader.advance();
                } else {
                    let mut message = "unknown character ".to_string();
                    message.push(c);
                    return Err(message);
                }
            },
        }
    }
}

/// Reads an operator, or the comment that `/*` or `//` opens.
fn tokenize_operator(reader: &mut SourceCodeReader) -> (result: Result<Token, String>)
    ensures
        pieced(
            old(reader),
            final(reader),
            result,
            operator_piece(old(reader).text(), old(reader).position()),
        ),
{
    match reader.peek() {
        None => Err("no operator, end of source".to_string()),
        Some((_, c)) => {
            if c == '\'' {
                tokenize_single_quote_string_literal(reader)
            } else if c == '"' {
                tokenize_double_quote_string_literal(reader)
            } else if c == '`' {
                tokenize_back_quote_template_literal(reader)
            } else if looks_at(reader, '/', '*') {
                reader.advance();
                tokenize_block_comment(reader)
            } else if looks_at(reader, '/', '/') {
                reader.advance();
                tokenize_line_comment(reader)
            } else {
                match longest_punctuator_at(reader) {
                    None => {
                        let mut message = String::new();
                        message.push(c);
                        message.append(" is not operator");
                        assert(message@ =~= seq![c] + " is not operator"@);
                        Err(message)
                    },
                    Some(p) => {
                        if p == Punctuator::Dot && looks_at(reader, '.', '.') {
                            reader.advance();
                            tokenize_const_token(reader, Token::Dot)
                        } else {
                            reader.advance_by(p.length() - 1);
                            tokenize_const_token(reader, Token::from_punctuator(p))
                        }
                    },
                }
            }
        },
    }
}

/// Reads a run of decimal digits as a number.
fn tokenize_decimal_number(reader: &mut SourceCodeReader) -> (result: Result<Token, String>)
    ensures
        pieced(
            old(reader),
            final(reader),
            result,
            number_piece(old(reader).text(), old(reader).position()),
        ),
{
    let mut num_string = String::new();
    let ghost text = reader.text();
    let ghost at = reader.position();
    let start = reader.offset();
    assert(text.subrange(at, at) =~= num_string@);
    loop
        invariant
            reader.text() == text,
            0 <= at <= reader.position() <= text.len(),
            num_string@ == text.subrange(at, reader.position()),
            decimal_digits_end(text, reader.position()) == decimal_digits_end(text, at),
        ensures
            reader.text() == text,
            reader.position() == decimal_digits_end(text, at),
            num_string@ == text.subrange(at, reader.position()),
        decreases text.len() - reader.position(),
    {
        match reader.peek() {
            Some((_, c)) => {
                if digit_of(Radix::Decimal, c) {
                    let ghost here = reader.position();
                    reader.advance();
                    num_string.push(c);
                    assert(text.subrange(at, here).push(c) =~= text.subrange(at, here + 1));
                } else {
                    break ;
                }
            },
            None => {
                break ;
            },
        }
    }
    Ok(Token::Number(num_string))
}

/// Reads a line comment. The first `/` has been consumed and the reader
/// stands on the second.
fn tokenize_line_comment(reader: &mut SourceCodeReader) -> (result: Result<Token, String>)
    requires
        starts_with(old(reader).text(), old(reader).position() - 1, seq!['/', '/']),
    ensures
        pieced(
            old(reader),
            final(reader),
            result,
            line_comment_piece(old(reader).text(), old(reader).position() - 1),
        ),
{
    let ghost text = reader.text();
    let ghost at = reader.position() - 1;
    reader.advance();
    let mut str = String::new();
    assert(text.subrange(at + 2, at + 2) =~= str@);
    loop
        invariant
            reader.text() == text,
            text == old(reader).text(),
            at == old(reader).position() - 1,
            0 <= at,
            at + 2 <= reader.position() <= text.len(),
            str@ == text.subrange(at + 2, reader.position()),
            line_feed(text, reader.position()) == line_feed(text, at + 2),
        decreases text.len() - reader.position(),
    {
        let ghost here = reader.position();
        match reader.advance() {
            Some((_, c)) => {
                if c == '\n' {
                    return Ok(Token::LineComment(str));
                }
                str.push(c);
                assert(text.subrange(at + 2, here).push(c) =~= text.subrange(at + 2, here + 1));
            },
            None => {
                return Ok(Token::LineComment(str));
            },
        }
    }
}

/// Reads a block comment. The `/` of the opening has been consumed and
/// the reader stands on its `*`.
fn tokenize_block_comment(reader: &mut SourceCodeReader) -> (result: Result<Token, String>)
    requires
        starts_with(old(reader).text(), old(reader).position() - 1, seq!['/', '*']),
    ensures
        pieced(
            old(reader),
            final(reader),
            result,
            block_comment_piece(old(reader).text(), old(reader).position() - 1),
        ),
{
    let ghost text = reader.text();
    let ghost at = reader.position() - 1;
    let mut str = "/".to_string();
    proof {
        reveal_strlit("/");
        assert(text.subrange(at, at + 2)[0] == text[at]);
        assert(text.subrange(at, at + 1) =~= str@);
    }

    let mut is_prev_asterisk = false;
    loop
        invariant
            reader.text() == text,
            text == old(reader).text(),
            at == old(reader).position() - 1,
            0 <= at,
            at + 1 <= reader.position() <= text.len(),
            str@ == text.subrange(at, reader.position()),
            is_prev_asterisk ==> at + 1 < reader.position() && text[reader.position() - 1] == '*',
            comment_close(text, reader.position() - if is_prev_asterisk { 1int } else { 0 })
                == comment_close(text, at + 1),
        decreases text.len() - reader.position(),
    {
        let ghost here = reader.position();
        match reader.advance() {
            Some((_, c)) => {
                str.push(c);
                proof {
                    assert(text.subrange(at, here).push(c) =~= text.subrange(at, here + 1));
                    if is_prev_asterisk {
                        assert(comment_close(text, here - 1) == if c == '/' {
                            Some(here + 1)
                        } else {
                            comment_close(text, here)
                        });
                    }
                    if c != '*' {
                        assert(comment_close(text, here) == comment_close(text, here + 1));
                    }
                }
                if is_prev_asterisk && c == '/' {
                    return Ok(Token::BlockComment(str));
                }
                is_prev_asterisk = c == '*';
            },
            None => {
                proof {
                    assert(comment_close(text, here - 1) is None);
                    assert(comment_close(text, here) is None);
                }
                return Ok(Token::BlockComment(str));
            },
        }
    }
}

/// A string literal in single quotes: refused.
fn tokenize_single_quote_string_literal(reader: &mut SourceCodeReader) -> (result: Result<
    Token,
    String,
>)
    ensures
        *final(reader) == *old(reader),
        result matches Err(message) && message@ == "string literals are not supported"@,
{
    Err("string literals are not supported".to_string())
}

/// A string literal in double quotes: refused.
fn tokenize_double_quote_string_literal(reader: &mut SourceCodeReader) -> (result: Result<
    Token,
    String,
>)
    ensures
        *final(reader) == *old(reader),
        result matches Err(message) && message@ == "string literals are not supported"@,
{
    Err("string literals are not supported".to_string())
}

/// A template literal: refused.
fn tokenize_back_quote_template_literal(reader: &mut SourceCodeReader) -> (result: Result<
    Token,
    String,
>)
    ensures
        *final(reader) == *old(reader),
        result matches Err(message) && message@ == "template literals are not supported"@,
{
    Err("template literals are not supported".to_string())
}

/// Consumes one character and returns `token` as it is.
fn tokenize_const_token(reader: &mut SourceCodeReader, token: Token) -> (result: Result<
    Token,
    String,
>)
    ensures
        final(reader).text() == old(reader).text(),
        old(reader).position() < old(reader).text().len() ==> {
            &&& result matches Ok(found)
            &&& found == token
            &&& final(reader).position() == old(reader).position() + 1
        },
        old(reader).position() >= old(reader).text().len() ==> {
            &&& result matches Err(message)
            &&& message@ == "next char expected, but reached end"@
            &&& final(reader).position() == old(reader).position()
        },
{
    match reader.advance() {
        Some(_) => Ok(token),
        None => Err("next char expected, but reached end".to_string()),
    }
}

/// Takes the first token off `tokens`. Off no tokens it takes the
/// end-of-tokens token and leaves none.
pub fn pop_token(tokens: &[Token]) -> (popped: (Token, &[Token]))
    ensures
        tokens@.len() == 0 ==> popped.0 == Token::Eof && popped.1@ == tokens@,
        tokens@.len() > 0 ==> popped.0 == tokens@[0] && popped.1@ == tokens@.drop_first(),
{
    if tokens.len() == 0 {
        return (Token::Eof, tokens);
    }
    let token = &tokens[0];
    let rest = vstd::slice::slice_subrange(tokens, 1, tokens.len());
    assert(rest@ =~= tokens@.drop_first());
    (token.clone(), rest)
}

} // verus!
