use vstd::prelude::*;

verus! {

/// Why an embedding call was rejected. Every error aborts the whole batch.
#[derive(Debug, Clone, Copy, PartialEq, Eq, Structural)]
pub enum EmbedError {
    /// Empty batch, empty or malformed sequence, or a batch too large to index.
    InvalidInput,
    /// The model's dimensions cannot hold the batch.
    ShapeMismatch,
    /// Cumulative offsets that are not a valid segmentation of the tokens.
    InvariantViolation,
}

} // verus!
