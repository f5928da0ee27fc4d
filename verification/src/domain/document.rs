//! Document assembly.
use vstd::prelude::*;
use crate::text::concat_str;

verus! {

/// Assembles the final LaTeX document from template and body.
pub struct DocumentAssembler;

/// The assembled document: the preamble, a line break, then the body.
pub open spec fn assembled(preambulo: Seq<char>, body: Seq<char>) -> Seq<char> {
    preambulo + "\n"@ + body
}

impl DocumentAssembler {
    /// Assemble a document from a template preamble and body content: the
    /// preamble, then the body on the following line.
    pub fn assemble(preambulo: &str, body: &str) -> (r: String)
        ensures
            r@ == assembled(preambulo@, body@),
    {
        let head = concat_str(preambulo, "\n");
        concat_str(head.as_str(), body)
    }
}

} // verus!
