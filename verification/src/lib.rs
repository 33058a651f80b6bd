//! A binary Merkle-tree vector commitment: digest folding, proof-size
//! accounting, the optimal verification-layer heuristic, and the three
//! verifier-facing protocols (vector, layer, and opening verification).
//!
//! The scheme is generic over two capabilities supplied at construction
//! time: a deterministic 2-to-1 digest compression function and a leaf
//! hasher that turns a chunk of field elements into a digest.

pub mod bits;
pub mod digest;
pub mod errors;
pub mod hashing;
pub mod folding;
pub mod transcript;
pub mod scheme;
pub mod laws;
