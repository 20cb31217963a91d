use vstd::prelude::*;
use super::reader_struct::SourceCodeReader;
use super::structs::JsAst;

verus! {

/// Parses a script. The tree has no nodes yet, and nothing is read.
pub fn parse_script(n: SourceCodeReader<'_>) -> (ast: JsAst)
    ensures
        ast == (JsAst {  }),
{
    JsAst::new()
}

/// Parses a module. The tree has no nodes yet, and nothing is read.
pub fn parse_module(n: SourceCodeReader<'_>) -> (ast: JsAst)
    ensures
        ast == (JsAst {  }),
{
    JsAst::new()
}

} // verus!
