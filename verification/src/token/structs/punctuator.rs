use vstd::prelude::*;

verus! {

/// The operators and delimiters of the language.
#[derive(PartialEq, Eq, Debug, Clone, Copy, Structural)]
pub enum Punctuator {
    /// `{`
    LeftBrace,
    /// `}`
    RightBrace,
    /// `(`
    LeftParen,
    /// `)`
    RightParen,
    /// `[`
    LeftBracket,
    /// `]`
    RightBracket,
    /// `.`
    Dot,
    /// `...`
    DotThree,
    /// `;`
    SemiColon,
    /// `,`
    Comma,
    /// `<`
    LessThan,
    /// `>`
    GreaterThan,
    /// `<=`
    LessThanEqual,
    /// `>=`
    GreaterThanEqual,
    /// `==`
    Equal,
    /// `!=`
    NotEqual,
    /// `===`
    StrictEqual,
    /// `!==`
    StrictNotEqual,
    /// `+`
    Plus,
    /// `-`
    Minus,
    /// `*`
    Multiply,
    /// `/`
    Divide,
    /// `%`
    Remainder,
    /// `**`
    Exponentiation,
    /// `++`
    Increment,
    /// `--`
    Decrement,
    /// `<<`
    LeftShift,
    /// `>>`
    RightShift,
    /// `>>>`
    UnsignedRightShift,
    /// `&`
    BitAnd,
    /// `|`
    BitOr,
    /// `^`
    BitXor,
    /// `!`
    LogicalNot,
    /// `~`
    BitNot,
    /// `&&`
    LogicalAnd,
    /// `||`
    LogicalOr,
    /// `??`
    NullishCoalesce,
    /// `?`
    TernaryQuestion,
    /// `:`
    TernaryColon,
    /// `=`
    Assign,
    /// `+=`
    PlusAssign,
    /// `-=`
    MinusAssign,
    /// `*=`
    MultiplyAssign,
    /// `/=`
    DivideAssign,
    /// `%=`
    RemainderAssign,
    /// `**=`
    ExponentiationAssign,
    /// `<<=`
    LeftShiftAssign,
    /// `>>=`
    RightShiftAssign,
    /// `>>>=`
    UnsignedRightShiftAssign,
    /// `&=`
    BitAndAssign,
    /// `|=`
    BitOrAssign,
    /// `^=`
    BitXorAssign,
    /// `&&=`
    LogicalAndAssign,
    /// `||=`
    LogicalOrAssign,
    /// `??=`
    NullishCoalesceAssign,
    /// `=>`
    Arrow,
    /// `?.`
    OptionalChain,
}

impl Punctuator {
    /// The canonical text of the punctuator.
    pub open spec fn text(self) -> Seq<char> {
        match self {
            Punctuator::LeftBrace => seq!['{'],
            Punctuator::RightBrace => seq!['}'],
            Punctuator::LeftParen => seq!['('],
            Punctuator::RightParen => seq![')'],
            Punctuator::LeftBracket => seq!['['],
            Punctuator::RightBracket => seq![']'],
            Punctuator::Dot => seq!['.'],
            Punctuator::DotThree => seq!['.', '.', '.'],
            Punctuator::SemiColon => seq![';'],
            Punctuator::Comma => seq![','],
            Punctuator::LessThan => seq!['<'],
            Punctuator::GreaterThan => seq!['>'],
            Punctuator::LessThanEqual => seq!['<', '='],
            Punctuator::GreaterThanEqual => seq!['>', '='],
            Punctuator::Equal => seq!['=', '='],
            Punctuator::NotEqual => seq!['!', '='],
            Punctuator::StrictEqual => seq!['=', '=', '='],
            Punctuator::StrictNotEqual => seq!['!', '=', '='],
            Punctuator::Plus => seq!['+'],
            Punctuator::Minus => seq!['-'],
            Punctuator::Multiply => seq!['*'],
            Punctuator::Divide => seq!['/'],
            Punctuator::Remainder => seq!['%'],
            Punctuator::Exponentiation => seq!['*', '*'],
            Punctuator::Increment => seq!['+', '+'],
            Punctuator::Decrement => seq!['-', '-'],
            Punctuator::LeftShift => seq!['<', '<'],
            Punctuator::RightShift => seq!['>', '>'],
            Punctuator::UnsignedRightShift => seq!['>', '>', '>'],
            Punctuator::BitAnd => seq!['&'],
            Punctuator::BitOr => seq!['|'],
            Punctuator::BitXor => seq!['^'],
            Punctuator::LogicalNot => seq!['!'],
            Punctuator::BitNot => seq!['~'],
            Punctuator::LogicalAnd => seq!['&', '&'],
            Punctuator::LogicalOr => seq!['|', '|'],
            Punctuator::NullishCoalesce => seq!['?', '?'],
            Punctuator::TernaryQuestion => seq!['?'],
            Punctuator::TernaryColon => seq![':'],
            Punctuator::Assign => seq!['='],
            Punctuator::PlusAssign => seq!['+', '='],
            Punctuator::MinusAssign => seq!['-', '='],
            Punctuator::MultiplyAssign => seq!['*', '='],
            Punctuator::DivideAssign => seq!['/', '='],
            Punctuator::RemainderAssign => seq!['%', '='],
            Punctuator::ExponentiationAssign => seq!['*', '*', '='],
            Punctuator::LeftShiftAssign => seq!['<', '<', '='],
            Punctuator::RightShiftAssign => seq!['>', '>', '='],
            Punctuator::UnsignedRightShiftAssign => seq!['>', '>', '>', '='],
            Punctuator::BitAndAssign => seq!['&', '='],
            Punctuator::BitOrAssign => seq!['|', '='],
            Punctuator::BitXorAssign => seq!['^', '='],
            Punctuator::LogicalAndAssign => seq!['&', '&', '='],
            Punctuator::LogicalOrAssign => seq!['|', '|', '='],
            Punctuator::NullishCoalesceAssign => seq!['?', '?', '='],
            Punctuator::Arrow => seq!['=', '>'],
            Punctuator::OptionalChain => seq!['?', '.'],
        }
    }

    /// The number of characters of the punctuator's text.
    pub fn length(&self) -> (length: usize)
        ensures
            length == self.text().len(),
            1 <= length <= 4,
    {
        match self {
            Punctuator::UnsignedRightShiftAssign => 4,
            Punctuator::DotThree
            | Punctuator::StrictEqual
            | Punctuator::StrictNotEqual
            | Punctuator::UnsignedRightShift
            | Punctuator::ExponentiationAssign
            | Punctuator::LeftShiftAssign
            | Punctuator::RightShiftAssign
            | Punctuator::LogicalAndAssign
            | Punctuator::LogicalOrAssign
            | Punctuator::NullishCoalesceAssign => 3,
            Punctuator::LessThanEqual
            | Punctuator::GreaterThanEqual
            | Punctuator::Equal
            | Punctuator::NotEqual
            | Punctuator::Exponentiation
            | Punctuator::Increment
            | Punctuator::Decrement
            | Punctuator::LeftShift
            | Punctuator::RightShift
            | Punctuator::LogicalAnd
            | Punctuator::LogicalOr
            | Punctuator::NullishCoalesce
            | Punctuator::PlusAssign
            | Punctuator::MinusAssign
            | Punctuator::MultiplyAssign
            | Punctuator::DivideAssign
            | Punctuator::RemainderAssign
            | Punctuator::BitAndAssign
            | Punctuator::BitOrAssign
            | Punctuator::BitXorAssign
            | Punctuator::Arrow
            | Punctuator::OptionalChain => 2,
            _ => 1,
        }
    }

    /// No two punctuators have the same text.
    pub proof fn lemma_text_is_injective(p: Punctuator, q: Punctuator)
        requires
            p.text() == q.text(),
        ensures
            p == q,
    {
        let s = p.text();
        let t = q.text();
        assert(s.len() == t.len());
        assert(s[0] == t[0]);
        if s.len() > 1 {
            assert(s[1] == t[1]);
        }
        if s.len() > 2 {
            assert(s[2] == t[2]);
        }
        if s.len() > 3 {
            assert(s[3] == t[3]);
        }
    }

    /// The canonical text of the punctuator, as it is written in a source.
    pub fn to_source_string(&self) -> (source: String)
        ensures
            source@ == self.text(),
    {
        let text = match self {
            Punctuator::LeftBrace => "{",
            Punctuator::RightBrace => "}",
            Punctuator::LeftParen => "(",
            Punctuator::RightParen => ")",
            Punctuator::LeftBracket => "[",
            Punctuator::RightBracket => "]",
            Punctuator::Dot => ".",
            Punctuator::DotThree => "...",
            Punctuator::SemiColon => ";",
            Punctuator::Comma => ",",
            Punctuator::LessThan => "<",
            Punctuator::GreaterThan => ">",
            Punctuator::LessThanEqual => "<=",
            Punctuator::GreaterThanEqual => ">=",
            Punctuator::Equal => "==",
            Punctuator::NotEqual => "!=",
            Punctuator::StrictEqual => "===",
            Punctuator::StrictNotEqual => "!==",
            Punctuator::Plus => "+",
            Punctuator::Minus => "-",
            Punctuator::Multiply => "*",
            Punctuator::Divide => "/",
            Punctuator::Remainder => "%",
            Punctuator::Exponentiation => "**",
            Punctuator::Increment => "++",
            Punctuator::Decrement => "--",
            Punctuator::LeftShift => "<<",
            Punctuator::RightShift => ">>",
            Punctuator::UnsignedRightShift => ">>>",
            Punctuator::BitAnd => "&",
            Punctuator::BitOr => "|",
            Punctuator::BitXor => "^",
            Punctuator::LogicalNot => "!",
            Punctuator::BitNot => "~",
            Punctuator::LogicalAnd => "&&",
            Punctuator::LogicalOr => "||",
            Punctuator::NullishCoalesce => "??",
            Punctuator::TernaryQuestion => "?",
            Punctuator::TernaryColon => ":",
            Punctuator::Assign => "=",
            Punctuator::PlusAssign => "+=",
            Punctuator::MinusAssign => "-=",
            Punctuator::MultiplyAssign => "*=",
            Punctuator::DivideAssign => "/=",
            Punctuator::RemainderAssign => "%=",
            Punctuator::ExponentiationAssign => "**=",
            Punctuator::LeftShiftAssign => "<<=",
            Punctuator::RightShiftAssign => ">>=",
            Punctuator::UnsignedRightShiftAssign => ">>>=",
            Punctuator::BitAndAssign => "&=",
            Punctuator::BitOrAssign => "|=",
            Punctuator::BitXorAssign => "^=",
            Punctuator::LogicalAndAssign => "&&=",
            Punctuator::LogicalOrAssign => "||=",
            Punctuator::NullishCoalesceAssign => "??=",
            Punctuator::Arrow => "=>",
            Punctuator::OptionalChain => "?.",
        };
        proof {
            reveal_strlit("{");
            reveal_strlit("}");
            reveal_strlit("(");
            reveal_strlit(")");
            reveal_strlit("[");
            reveal_strlit("]");
            reveal_strlit(".");
            reveal_strlit("...");
            reveal_strlit(";");
            reveal_strlit(",");
            reveal_strlit("<");
            reveal_strlit(">");
            reveal_strlit("<=");
            reveal_strlit(">=");
            reveal_strlit("==");
            reveal_strlit("!=");
            reveal_strlit("===");
            reveal_strlit("!==");
            reveal_strlit("+");
            reveal_strlit("-");
            reveal_strlit("*");
            reveal_strlit("/");
            reveal_strlit("%");
            reveal_strlit("**");
            reveal_strlit("++");
            reveal_strlit("--");
            reveal_strlit("<<");
            reveal_strlit(">>");
            reveal_strlit(">>>");
            reveal_strlit("&");
            reveal_strlit("|");
            reveal_strlit("^");
            reveal_strlit("!");
            reveal_strlit("~");
            reveal_strlit("&&");
            reveal_strlit("||");
            reveal_strlit("??");
            reveal_strlit("?");
            reveal_strlit(":");
            reveal_strlit("=");
            reveal_strlit("+=");
            reveal_strlit("-=");
            reveal_strlit("*=");
            reveal_strlit("/=");
            reveal_strlit("%=");
            reveal_strlit("**=");
            reveal_strlit("<<=");
            reveal_strlit(">>=");
            reveal_strlit(">>>=");
            reveal_strlit("&=");
            reveal_strlit("|=");
            reveal_strlit("^=");
            reveal_strlit("&&=");
            reveal_strlit("||=");
            reveal_strlit("??=");
            reveal_strlit("=>");
            reveal_strlit("?.");
            assert(text@ =~= self.text());
        }
        text.to_string()
    }
}

} // verus!
