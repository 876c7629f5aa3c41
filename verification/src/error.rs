//! What the store itself can reject.

use vstd::prelude::*;
use vstd::string::StringExecFns;

verus! {

/// The faults that the store detects before it changes anything.
///
/// Faults of the file system and of an embedding model arise outside this
/// crate and are reported by whoever performs those steps.
#[derive(Clone, Copy, Debug, PartialEq, Eq, Structural)]
pub enum StoreError {
    /// Invalid input: the rating lies outside `1..=5`.
    RatingOutOfRange,
    /// Invalid input: the vector has more components than a 32-bit count
    /// can express.
    VectorTooLong,
    /// The extractor handed back a different number of vectors than there
    /// are records to embed.
    EmbeddingCountMismatch,
    /// The external vector index could not be created, so nothing can be
    /// added to it.
    IndexUnavailable,
}

impl StoreError {
    /// The words that describe a fault.
    pub open spec fn message_of(self) -> Seq<char> {
        match self {
            StoreError::RatingOutOfRange => "rating must be between 1 and 5"@,
            StoreError::VectorTooLong => "vector has too many components"@,
            StoreError::EmbeddingCountMismatch => "one vector is needed for each record"@,
            StoreError::IndexUnavailable => "vector index is not available"@,
        }
    }

    /// A description of the fault for a log or a response.
    pub fn message(&self) -> (text: String)
        ensures
            text@ == self.message_of(),
    {
        match self {
            StoreError::RatingOutOfRange => String::from_str("rating must be between 1 and 5"),
            StoreError::VectorTooLong => String::from_str("vector has too many components"),
            StoreError::EmbeddingCountMismatch => String::from_str(
                "one vector is needed for each record",
            ),
            StoreError::IndexUnavailable => String::from_str("vector index is not available"),
        }
    }
}

} // verus!
