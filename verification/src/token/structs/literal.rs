use vstd::prelude::*;

verus! {

/// The kinds of literal.
#[derive(PartialEq, Eq, Debug, Clone, Copy, Structural)]
pub enum Literal {
    /// 123
    DecimalInteger,
    /// 12.3
    DecimalPointNumber,
    /// 12e3
    DecimalExponentNumber,
    /// 12.3e4
    DecimalPointExponentNumber,
    /// 123n
    DecimalBigInteger,
    /// 0b011
    BinaryInteger,
    /// 0o067
    OctalInteger,
    /// 0x0ef
    HexInteger,
    /// 0b011n
    BinaryBigInteger,
    /// 0o067n
    OctalBigInteger,
    /// 0x0efn
    HexBigInteger,
    /// 067
    LegacyOctalInteger,
    /// 'abc'
    SingleString,
    /// "abc"
    DoubleString,
}

} // verus!
