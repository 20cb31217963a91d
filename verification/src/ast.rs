//! The source reader and the arithmetic front end: a token list is read
//! into a sum of numbers.
use vstd::prelude::*;
use crate::ast::token::{make_token_list, pop_token, token_views, views, Token, TokenView};
use crate::character_patterns::is_decimal_digit;

pub mod reader_struct;
pub mod script;
pub mod structs;
pub mod token;

verus! {

/// An arithmetic expression.
#[derive(PartialEq, Eq, Debug)]
pub enum Ast {
    ExpressionPlus { left: Box<Ast>, right: Box<Ast> },
    Number(u32),
}

impl Clone for Ast {
    fn clone(&self) -> (ast: Ast)
        ensures
            ast == *self,
        decreases self,
    {
        match self {
            Ast::ExpressionPlus { left, right } => Ast::ExpressionPlus {
                left: Box::new((**left).clone()),
                right: Box::new((**right).clone()),
            },
            Ast::Number(value) => Ast::Number(*value),
        }
    }
}

/// The number that a decimal digit stands for.
pub open spec fn digit_value(c: char) -> nat {
    (c as int - '0' as int) as nat
}

/// The number that a run of decimal digits stands for.
pub open spec fn number_value(digits: Seq<char>) -> nat
    decreases digits.len(),
{
    if digits.len() == 0 {
        0
    } else {
        number_value(digits.drop_last()) * 10 + digit_value(digits.last())
    }
}

/// The number that `digits` stands for, where it is a run of decimal
/// digits, not empty, whose number fits in 32 bits.
pub open spec fn decimal_u32(digits: Seq<char>) -> Option<u32> {
    if digits.len() > 0 && (forall|i: int|
        0 <= i < digits.len() ==> is_decimal_digit(#[trigger] digits[i])) && number_value(digits)
        <= u32::MAX {
        Some(number_value(digits) as u32)
    } else {
        None
    }
}

/// The first of `tokens`; behind the last token, the end-of-tokens token.
pub open spec fn first_view(tokens: Seq<TokenView>) -> TokenView {
    if tokens.len() == 0 {
        TokenView::Plain(Token::Eof)
    } else {
        tokens[0]
    }
}

/// `tokens` without the first; no tokens stay no tokens.
pub open spec fn rest_views(tokens: Seq<TokenView>) -> Seq<TokenView> {
    if tokens.len() == 0 {
        tokens
    } else {
        tokens.drop_first()
    }
}

/// `+` or `-`.
pub open spec fn is_additive(token: TokenView) -> bool {
    token == TokenView::Plain(Token::Plus) || token == TokenView::Plain(Token::Minus)
}

/// A number at the head of `tokens`, with the tokens behind it. Where
/// another token stands, the number is 0 and no token is taken. Nothing
/// where the number does not fit in 32 bits.
pub open spec fn number_parse(tokens: Seq<TokenView>) -> Option<(Ast, Seq<TokenView>)> {
    match first_view(tokens) {
        TokenView::Number(digits) => match decimal_u32(digits) {
            Some(value) => Some((Ast::Number(value), rest_views(tokens))),
            None => None,
        },
        _ => Some((Ast::Number(0), tokens)),
    }
}

/// A number, or two numbers with `+` or `-` between them, at the head of
/// `tokens`, with the tokens behind it.
pub open spec fn term_parse(tokens: Seq<TokenView>) -> Option<(Ast, Seq<TokenView>)> {
    match number_parse(tokens) {
        None => None,
        Some((left, rest)) => if is_additive(first_view(rest)) {
            match number_parse(rest_views(rest)) {
                None => None,
                Some((right, after)) => Some(
                    (Ast::ExpressionPlus { left: Box::new(left), right: Box::new(right) }, after),
                ),
            }
        } else {
            Some((left, rest))
        },
    }
}

/// A term, or two terms with `+` or `-` between them, at the head of
/// `tokens`, with the tokens behind it.
pub open spec fn expression_parse(tokens: Seq<TokenView>) -> Option<(Ast, Seq<TokenView>)> {
    match term_parse(tokens) {
        None => None,
        Some((left, rest)) => if is_additive(first_view(rest)) {
            match term_parse(rest_views(rest)) {
                None => None,
                Some((right, after)) => Some(
                    (Ast::ExpressionPlus { left: Box::new(left), right: Box::new(right) }, after),
                ),
            }
        } else {
            Some((left, rest))
        },
    }
}

/// `result` is what a parser makes of `parse`: the expression and the
/// tokens behind it, or the message that a number is out of range.
pub open spec fn parsed(
    result: Result<(Ast, &[Token]), String>,
    parse: Option<(Ast, Seq<TokenView>)>,
) -> bool {
    match parse {
        Some((ast, rest)) => result matches Ok(found) && found.0 == ast && views(found.1@) == rest,
        None => result matches Err(message) && message@ == "number out of range"@,
    }
}

/// Reads `source` as an expression: the expression at the head of its
/// tokens. What follows the expression is not looked at.
pub fn make_ast(source: &str) -> (result: Result<Ast, String>)
    ensures
        match token_views(source@, 0) {
            Err(message) => result matches Err(text) && text@ == message,
            Ok(tokens) => match expression_parse(tokens) {
                Some((ast, _)) => result matches Ok(found) && found == ast,
                None => result matches Err(text) && text@ == "number out of range"@,
            },
        },
{
    let tokens = match make_token_list(source) {
        Ok(tokens) => tokens,
        Err(message) => {
            return Err(message);
        },
    };

    match parse_expression_plus_minus(tokens.as_slice()) {
        Ok((ast, _)) => Ok(ast),
        Err(message) => Err(message),
    }
}

fn is_plus_or_minus(token: &Token) -> (b: bool)
    ensures
        b == is_additive(token@),
{
    match token {
        Token::Plus | Token::Minus => true,
        _ => false,
    }
}

fn parse_expression_plus_minus(tokens: &[Token]) -> (result: Result<(Ast, &[Token]), String>)
    ensures
        parsed(result, expression_parse(views(tokens@))),
{
    let (left, tokens) = match parse_expression_time_div(tokens) {
        Ok(found) => found,
        Err(message) => {
            return Err(message);
        },
    };
    let (token, new_tokens) = pop_token(tokens);
    proof {
        lemma_views_of_rest(tokens@);
    }
    if is_plus_or_minus(&token) {
        match parse_expression_time_div(new_tokens) {
            Ok((right, tokens)) => Ok(
                (Ast::ExpressionPlus { left: Box::new(left), right: Box::new(right) }, tokens),
            ),
            Err(message) => Err(message),
        }
    } else {
        Ok((left, tokens))
    }
}

fn parse_expression_time_div(tokens: &[Token]) -> (result: Result<(Ast, &[Token]), String>)
    ensures
        parsed(result, term_parse(views(tokens@))),
{
    let (left, tokens) = match parse_number(tokens) {
        Ok(found) => found,
        Err(message) => {
            return Err(message);
        },
    };
    let (token, new_tokens) = pop_token(tokens);
    proof {
        lemma_views_of_rest(tokens@);
    }
    if is_plus_or_minus(&token) {
        match parse_number(new_tokens) {
            Ok((right, tokens)) => Ok(
                (Ast::ExpressionPlus { left: Box::new(left), right: Box::new(right) }, tokens),
            ),
            Err(message) => Err(message),
        }
    } else {
        Ok((left, tokens))
    }
}

fn parse_number(tokens: &[Token]) -> (result: Result<(Ast, &[Token]), String>)
    ensures
        parsed(result, number_parse(views(tokens@))),
{
    let (token, new_tokens) = pop_token(tokens);
    proof {
        lemma_views_of_rest(tokens@);
    }
    match token {
        Token::Number(n) => match parse_u32(n.as_str()) {
            Some(value) => Ok((Ast::Number(value), new_tokens)),
            None => Err("number out of range".to_string()),
        },
        _ => Ok((Ast::Number(0), tokens)),
    }
}

/// The head and the rest of the views of tokens are the views of their
/// head and rest.
proof fn lemma_views_of_rest(tokens: Seq<Token>)
    ensures
        first_view(views(tokens)) == if tokens.len() == 0 {
            TokenView::Plain(Token::Eof)
        } else {
            tokens[0]@
        },
        rest_views(views(tokens)) == if tokens.len() == 0 {
            views(tokens)
        } else {
            views(tokens.drop_first())
        },
{
    if tokens.len() > 0 {
        assert(views(tokens).drop_first() =~= views(tokens.drop_first()));
    }
}

/// The number of a run of digits is at least the number of each run that
/// it begins with.
proof fn lemma_number_value_grows(digits: Seq<char>, length: int)
    requires
        0 <= length <= digits.len(),
    ensures
        number_value(digits.take(length)) <= number_value(digits),
    decreases digits.len() - length,
{
    if length < digits.len() {
        let longer = digits.take(length + 1);
        assert(longer.drop_last() =~= digits.take(length));
        assert(number_value(digits.take(length)) <= number_value(longer)) by (nonlinear_arith)
            requires
                number_value(longer) == number_value(digits.take(length)) * 10 + digit_value(
                    longer.last(),
                ),
        ;
        lemma_number_value_grows(digits, length + 1);
    } else {
        assert(digits.take(length) =~= digits);
    }
}

/// Reads a run of decimal digits as a number of 32 bits.
fn parse_u32(text: &str) -> (value: Option<u32>)
    ensures
        value == decimal_u32(text@),
{
    let mut value: u64 = 0;
    let mut is_empty = true;
    for c in it: text.chars()
        invariant
            it.seq() == text@,
            is_empty == (it.index() == 0),
            value == number_value(text@.take(it.index() as int)),
            value <= u32::MAX,
            forall|i: int| 0 <= i < it.index() ==> is_decimal_digit(#[trigger] text@[i]),
    {
        let ghost index = it.index() as int;
        if !('0' <= c && c <= '9') {
            assert(!is_decimal_digit(text@[index]));
            return None;
        }
        let digit: u64 = (c as u32 - '0' as u32) as u64;
        proof {
            assert(text@.take(index + 1).drop_last() =~= text@.take(index));
            lemma_number_value_grows(text@, index + 1);
        }
        value = value * 10 + digit;
        if value > u32::MAX as u64 {
            return None;
        }
        is_empty = false;
    }
    proof {
        assert(text@.take(text@.len() as int) =~= text@);
    }
    if is_empty {
        None
    } else {
        Some(value as u32)
    }
}

} // verus!
