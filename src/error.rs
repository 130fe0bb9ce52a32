use vstd::prelude::*;

verus! {

/// The error kinds of the library. Every error is fatal to the operation it arises in.
#[derive(Clone, Copy, Debug, PartialEq, Eq, Structural)]
pub enum Error {
    /// A key was inserted twice into a Merkle tree.
    KeyExists,
    /// A looked-up key is not in the tree.
    KeyNotFound,
    /// A path would go below the tree's maximum depth.
    MaxDepthReached,
    /// A Merkle proof does not recompute the expected root.
    ProofDoesNotVerify,
    /// A statement argument was expected to be a literal.
    ArgumentNotLiteral,
    /// A statement argument was expected to be an anchored key.
    ArgumentNotKey,
    /// An operation code does not fit its arguments.
    IllFormedOperation,
    /// An operation does not match the shape of the statement it claims to derive.
    InvalidDeduction,
    /// A configured bound (statements, arguments, pods) was exceeded.
    BoundExceeded,
    /// A value does not lie in the embedding of the 64-bit integers.
    ValueNotInI64Embedding,
    /// A string is not the hexadecimal encoding of 32 bytes.
    InvalidHex,
}

} // verus!
