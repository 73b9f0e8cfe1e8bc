use vstd::prelude::*;

verus! {

/// What can go wrong in a forward operation or a backward pass.
#[derive(Debug, Clone, Copy, PartialEq, Eq, Structural)]
pub enum Error {
    /// Two shapes do not stand in the relation an operation needs.
    ShapeMismatch,
    /// A gradient was asked for an identifier that the backward pass never wrote.
    MissingGradient,
    /// A backward pass was started from a tensor that is not a traced scalar.
    NonScalarOutput,
}

} // verus!
