use vstd::prelude::*;

verus! {

/// The flavours of comment. A comment token carries only its span; the text
/// is read back from the source.
#[derive(PartialEq, Eq, Debug, Clone, Copy, Structural)]
pub enum Comment {
    /// `// ...` up to the end of the line
    SingleLineComment,
    /// `/* ... */`
    MultiLineComment,
    /// `#! ...` on the first line
    HashBangComment,
}

} // verus!
