//! The generic syntax tree that lowering starts from: what a C front end
//! says of each node, as far as lowering reads it.

use vstd::prelude::*;

verus! {

/// A place in the source text. Lines and columns count from 1, columns in
/// bytes of the line.
#[derive(Debug, Clone, Copy, PartialEq, Eq, Structural)]
pub struct SourceLoc {
    pub line: u64,
    pub col: u64,
}

/// The stretch of source text that a node was spelled in, from the first
/// character to the last, both included.
#[derive(Debug, Clone, Copy, PartialEq, Eq, Structural)]
pub struct SourceSpan {
    pub begin: SourceLoc,
    pub end: SourceLoc,
}

/// One node of the syntax tree.
#[derive(Debug)]
pub struct AstNode {
    /// The node kind, such as `FunctionDecl`. A node without a kind stands
    /// for nothing, but its children are lowered.
    pub kind: Option<String>,
    /// The declared or referenced name.
    pub name: Option<String>,
    /// The type as it was written, qualifiers and pointers included.
    pub qual_type: Option<String>,
    /// The line on which the node starts.
    pub line: Option<u64>,
    /// Where the node was spelled.
    pub spelling: Option<SourceSpan>,
    /// The declaration that a name reference points to.
    pub referenced_decl: Option<Box<AstNode>>,
    /// The children, in source order.
    pub inner: Vec<AstNode>,
}

impl AstNode {
    /// A node of the given kind with nothing else known of it.
    pub fn new(kind: &str) -> (res: Self)
        ensures
            res.kind matches Some(k) && k@ == kind@,
            res.name is None,
            res.qual_type is None,
            res.line is None,
            res.spelling is None,
            res.referenced_decl is None,
            res.inner@.len() == 0,
    {
        AstNode {
            kind: Some(kind.to_owned()),
            name: None,
            qual_type: None,
            line: None,
            spelling: None,
            referenced_decl: None,
            inner: Vec::new(),
        }
    }
}

} // verus!
