//! The ways in which lowering or checking ends without a verdict of
//! acceptance. Each of them ends the whole run.

use vstd::prelude::*;

verus! {

#[derive(Debug, Clone, Copy, PartialEq, Eq, Structural)]
pub enum CheckError {
    /// The syntax tree does not have the shape that a reduction assumes.
    StructuralLoweringError,
    /// A node kind that has no reduction rule and is not ignored.
    UnsupportedConstruct,
    /// A field declaration that no annotation precedes.
    AnnotationMissing,
    /// A reference to a name that is not bound.
    UnknownSymbol,
    /// A call of a function that has not been checked before.
    UnknownFunction,
    /// An assignment into a binding that still owns a resource.
    OwnershipViolation,
    /// An instruction that the checker has no rule for: a field declaration
    /// among the instructions of a body, a conditional that does not hold
    /// two or three instructions, or an assignment of a call that yields no
    /// value.
    MalformedInstruction,
}

} // verus!
