//! The error taxonomy of the scheme: shape errors for caller misuse,
//! a single opaque verification failure, and a transcript underrun for
//! exhausted proof streams.

use vstd::prelude::*;

verus! {

/// Everything a verification entry point can report.
///
/// Shape errors name the malformed input exactly; a failed proof is always
/// reported as [`Error::InvalidProof`], with no indication of why the
/// recomputed digest disagreed.
#[derive(Debug, Clone, Copy, PartialEq, Eq, Structural)]
pub enum Error {
    /// A digest sequence handed to folding did not have power-of-two length.
    PowerOfTwoLengthRequired,
    /// A layer depth exceeded the tree's depth.
    IncorrectLayerDepth,
    /// The committed data length was not divisible by the batch size.
    IncorrectBatchSize,
    /// A disclosed layer did not hold exactly `2^layer_depth` digests.
    IncorrectVectorLength,
    /// A leaf index was at least `2^tree_depth`; `max` reports the largest
    /// admissible index.
    IndexOutOfRange { max: usize },
    /// The recomputed digest disagreed with the claimed root or layer node.
    InvalidProof,
    /// The proof transcript held fewer digests than the opening required.
    TranscriptUnderrun,
}

} // verus!
