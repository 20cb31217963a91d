use vstd::prelude::*;

verus! {

/// What a `/` means where the next token starts. The parser knows; the
/// tokenizer is told on every request and keeps no memory of it.
#[derive(PartialEq, Eq, Debug, Clone, Copy, Structural)]
pub enum DivContext {
    /// An operand came before: `/` divides.
    Divide,
    /// An operand is expected: `/` opens a regular expression literal.
    RegexStart,
}

/// What a `}` means where the next token starts.
#[derive(PartialEq, Eq, Debug, Clone, Copy, Structural)]
pub enum BraceContext {
    /// `}` closes a block or an object literal.
    Ordinary,
    /// `}` closes a substitution and template text follows.
    TemplateContinuation,
}

} // verus!
