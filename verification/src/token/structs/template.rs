use vstd::prelude::*;

verus! {

/// The pieces a template literal is cut into by its substitutions.
#[derive(PartialEq, Eq, Debug, Clone, Copy, Structural)]
pub enum Template {
    /// `abc`
    NoSubstitution,
    /// `abc${
    Head,
    /// }abc${
    Middle,
    /// }abc`
    Tail,
}

} // verus!
