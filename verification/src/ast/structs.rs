use vstd::prelude::*;

verus! {

/// The syntax tree of a script or a module. It has no nodes yet.
#[derive(PartialEq, Eq, Debug, Clone, Copy, Structural)]
pub struct JsAst {}

impl JsAst {
    pub fn new() -> (ast: JsAst)
        ensures
            ast == (JsAst {  }),
    {
        JsAst {  }
    }
}

} // verus!
