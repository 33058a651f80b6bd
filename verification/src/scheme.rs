//! The binary Merkle tree scheme: the verifier-facing object. It holds
//! the leaf hasher and the compression function and exposes proof-size
//! accounting, the optimal verification-layer heuristic, and the three
//! verification entry points — whole vector, one disclosed layer, or
//! per-leaf authentication paths against an already-verified layer.

use vstd::prelude::*;
use vstd::arithmetic::power2::{pow2, is_pow2, lemma_pow2_pos, lemma_pow2_unfold, lemma_pow2_adds};
use vstd::arithmetic::div_mod::{lemma_div_denominator, lemma_multiply_divide_lt};
use crate::bits::{
    checked_log2, log2_ceil, log2_ceil_spec, log2_spec, pow2_exec, lemma_log2_pow2,
    lemma_pow2_injective, lemma_pow2_is_pow2,
};
use crate::digest::{Digest, DIGEST_SIZE};
use crate::errors::Error;
use crate::folding::{digest_views, fold_spec, fold_digests_vector_inplace};
use crate::hashing::{Compressor, LeafHasher};
use crate::transcript::TranscriptReader;

verus! {

/// The byte-sequence models of the leaf digests of `data`, partitioned
/// into consecutive chunks of `batch` elements.
pub open spec fn leaf_digests_spec<H: LeafHasher>(h: H, data: Seq<u128>, batch: nat) -> Seq<
    Seq<u8>,
> {
    Seq::new(
        data.len() / batch,
        |i: int| h.leaf_hash_spec(data.subrange(i * batch, (i + 1) * batch)),
    )
}

/// Replaying an authentication path: combine the running digest with each
/// sibling in turn — as left child when the running index is even, as
/// right child when odd — halving the index at each level.
pub open spec fn replay_spec<C: Compressor>(
    c: C,
    leaf: Seq<u8>,
    index: nat,
    siblings: Seq<Seq<u8>>,
) -> Seq<u8>
    decreases siblings.len(),
{
    if siblings.len() == 0 {
        leaf
    } else {
        let combined = if index % 2 == 0 {
            c.compress_spec(leaf, siblings[0])
        } else {
            c.compress_spec(siblings[0], leaf)
        };
        replay_spec(c, combined, index / 2, siblings.skip(1))
    }
}

/// The batch size divides the data length (and is not zero).
pub open spec fn divides_evenly(data_len: nat, batch: nat) -> bool {
    batch > 0 && data_len % batch == 0
}

/// The exact proof size in bytes for a tree of `2^log_len` leaves: one
/// disclosed layer of `2^layer_depth` digests plus, per query, the
/// sibling digests strictly between leaf and layer.
pub open spec fn proof_size_spec(log_len: nat, n_queries: nat, layer_depth: nat) -> int {
    ((log_len - layer_depth - 1) * n_queries + pow2(layer_depth)) * (DIGEST_SIZE as int)
}

/// The binary Merkle tree scheme, configured by a leaf hasher and a
/// 2-to-1 compression function. It is immutable and holds no other state;
/// every verification call is a pure function of its inputs.
pub struct BinaryMerkleTreeScheme<H, C> {
    /// Hashes one chunk of committed field elements into a leaf digest.
    pub hasher: H,
    /// Combines two child digests into their parent digest.
    pub compression: C,
}

impl<H: LeafHasher, C: Compressor> BinaryMerkleTreeScheme<H, C> {
    /// Builds a scheme from its two capabilities.
    pub fn new(hasher: H, compression: C) -> (r: Self)
        ensures
            r.hasher == hasher,
            r.compression == compression,
    {
        BinaryMerkleTreeScheme { hasher, compression }
    }

    /// The layer depth minimizing proof size for `n_queries` queries:
    /// `ceil(log2(n_queries))`, clipped to the tree depth.
    pub fn optimal_verify_layer(&self, n_queries: usize, tree_depth: usize) -> (r: usize)
        ensures
            r as nat == if log2_ceil_spec(n_queries as nat) <= tree_depth as nat {
                log2_ceil_spec(n_queries as nat)
            } else {
                tree_depth as nat
            },
    {
        let l = log2_ceil(n_queries);
        if l <= tree_depth {
            l
        } else {
            tree_depth
        }
    }

    /// The exact byte size of a proof for `n_queries` openings of a
    /// committed vector of `len` field elements against a disclosed layer
    /// at `layer_depth`; see [`proof_size_spec`].
    ///
    /// The accounting is only meaningful strictly above the leaf layer,
    /// and its value must fit a machine word; hence the precondition.
    pub fn proof_size(&self, len: usize, n_queries: usize, layer_depth: usize) -> (r: Result<
        usize,
        Error,
    >)
        requires
            (is_pow2(len as int) && layer_depth <= log2_spec(len as nat)) ==> (layer_depth
                < log2_spec(len as nat) && proof_size_spec(
                log2_spec(len as nat),
                n_queries as nat,
                layer_depth as nat,
            ) <= usize::MAX),
        ensures
            match r {
                Ok(s) => is_pow2(len as int) && layer_depth < log2_spec(len as nat) && s
                    == proof_size_spec(log2_spec(len as nat), n_queries as nat, layer_depth as nat),
                Err(e) => if !is_pow2(len as int) {
                    e == Error::PowerOfTwoLengthRequired
                } else {
                    e == Error::IncorrectLayerDepth && layer_depth > log2_spec(len as nat)
                },
            },
    {
        let log_len = match checked_log2(len) {
            None => {
                return Err(Error::PowerOfTwoLengthRequired);
            },
            Some(k) => k,
        };
        proof {
            lemma_log2_pow2(log_len as nat);
        }
        if layer_depth > log_len {
            return Err(Error::IncorrectLayerDepth);
        }
        let ghost spec_size = proof_size_spec(log_len as nat, n_queries as nat, layer_depth as nat);
        let per_query = log_len - layer_depth - 1;
        proof {
            lemma_pow2_pos(layer_depth as nat);
            assert(pow2(layer_depth as nat) <= spec_size && (per_query as int) * (n_queries as int)
                <= spec_size && (per_query as int) * (n_queries as int) + pow2(layer_depth as nat)
                <= spec_size) by (nonlinear_arith)
                requires
                    spec_size == ((per_query as int) * (n_queries as int) + pow2(
                        layer_depth as nat,
                    )) * (DIGEST_SIZE as int),
                    per_query >= 0,
                    n_queries >= 0,
                    pow2(layer_depth as nat) > 0,
                    DIGEST_SIZE == 32,
            ;
        }
        let layer_part = pow2_exec(layer_depth);
        Ok((per_query * n_queries + layer_part) * DIGEST_SIZE)
    }

    /// Verifies a fully disclosed vector against the committed root by
    /// re-deriving every leaf digest and folding them down to the root.
    pub fn verify_vector(&self, root: &Digest, data: &[u128], batch_size: usize) -> (r: Result<
        (),
        Error,
    >)
        ensures
            ({
                let leaves = leaf_digests_spec(self.hasher, data@, batch_size as nat);
                let n_chunks = data@.len() / (batch_size as nat);
                match r {
                    Ok(()) => divides_evenly(data@.len(), batch_size as nat) && is_pow2(
                        n_chunks as int,
                    ) && fold_spec(self.compression, leaves) == root@,
                    Err(e) => if !divides_evenly(data@.len(), batch_size as nat) {
                        e == Error::IncorrectBatchSize
                    } else if !is_pow2(n_chunks as int) {
                        e == Error::PowerOfTwoLengthRequired
                    } else {
                        e == Error::InvalidProof && fold_spec(self.compression, leaves) != root@
                    },
                }
            }),
    {
        if batch_size == 0 || data.len() % batch_size != 0 {
            return Err(Error::IncorrectBatchSize);
        }
        let n_chunks = data.len() / batch_size;
        let ghost leaves = leaf_digests_spec(self.hasher, data@, batch_size as nat);
        let mut digests: Vec<Digest> = Vec::new();
        let mut i: usize = 0;
        while i < n_chunks
            invariant
                i <= n_chunks,
                batch_size > 0,
                data@.len() % (batch_size as nat) == 0,
                n_chunks == data@.len() / (batch_size as nat),
                data@.len() <= usize::MAX,
                leaves == leaf_digests_spec(self.hasher, data@, batch_size as nat),
                digests@.len() == i,
                forall|j: int| 0 <= j < i ==> digests@[j]@ == leaves[j],
            decreases n_chunks - i,
        {
            proof {
                vstd::arithmetic::div_mod::lemma_fundamental_div_mod(
                    data@.len() as int,
                    batch_size as int,
                );
                vstd::arithmetic::mul::lemma_mul_is_commutative(
                    n_chunks as int,
                    batch_size as int,
                );
                vstd::arithmetic::mul::lemma_mul_inequality(
                    (i + 1) as int,
                    n_chunks as int,
                    batch_size as int,
                );
                vstd::arithmetic::mul::lemma_mul_inequality(
                    i as int,
                    (i + 1) as int,
                    batch_size as int,
                );
                assert(((i + 1) as int) * (batch_size as int) <= data@.len());
            }
            let chunk = vstd::slice::slice_subrange(data, i * batch_size, (i + 1) * batch_size);
            let d = self.hasher.hash_leaf(chunk);
            digests.push(d);
            i = i + 1;
        }
        proof {
            assert(digest_views(digests@) =~= leaves);
        }
        match fold_digests_vector_inplace(&self.compression, &mut digests) {
            Err(e) => Err(e),
            Ok(()) => {
                proof {
                    reveal(is_pow2);
                }
                let computed = &digests[0];
                if computed.eq(root) {
                    Ok(())
                } else {
                    Err(Error::InvalidProof)
                }
            },
        }
    }

    /// Verifies a disclosed tree layer against the committed root by
    /// folding a private copy of the layer down to the root.
    pub fn verify_layer(&self, root: &Digest, layer_depth: usize, layer_digests: &[Digest]) -> (r:
        Result<(), Error>)
        ensures
            match r {
                Ok(()) => layer_digests@.len() == pow2(layer_depth as nat) && fold_spec(
                    self.compression,
                    digest_views(layer_digests@),
                ) == root@,
                Err(e) => if layer_digests@.len() != pow2(layer_depth as nat) {
                    e == Error::IncorrectVectorLength
                } else {
                    e == Error::InvalidProof && fold_spec(
                        self.compression,
                        digest_views(layer_digests@),
                    ) != root@
                },
            },
    {
        if !layer_len_matches(layer_digests, layer_depth) {
            return Err(Error::IncorrectVectorLength);
        }
        let mut digests = copy_digests(layer_digests);
        proof {
            assert(digest_views(digests@) =~= digest_views(layer_digests@));
            lemma_pow2_is_pow2(layer_depth as nat);
        }
        match fold_digests_vector_inplace(&self.compression, &mut digests) {
            Err(e) => Err(e),
            Ok(()) => {
                proof {
                    lemma_pow2_pos(layer_depth as nat);
                }
                let computed = &digests[0];
                if computed.eq(root) {
                    Ok(())
                } else {
                    Err(Error::InvalidProof)
                }
            },
        }
    }

    /// Verifies one leaf opening against a (previously verified) layer:
    /// hashes the claimed values, replays the authentication path read
    /// from the proof transcript, and compares the reached digest with
    /// the layer node above the leaf.
    ///
    /// Reads exactly `tree_depth - layer_depth` sibling digests from the
    /// transcript, leaf-ward first; an exhausted transcript is reported
    /// and consumes nothing.
    pub fn verify_opening(
        &self,
        index: usize,
        values: &[u128],
        layer_depth: usize,
        tree_depth: usize,
        layer_digests: &[Digest],
        proof_reader: &mut TranscriptReader,
    ) -> (r: Result<(), Error>)
        requires
            layer_depth <= tree_depth,
            pow2(tree_depth as nat) <= usize::MAX,
        ensures
            ({
                let d = (tree_depth - layer_depth) as nat;
                let replayed = replay_spec(
                    self.compression,
                    self.hasher.leaf_hash_spec(values@),
                    index as nat,
                    old(proof_reader)@.take(d as int),
                );
                let layer_pos = (index as nat) / pow2(d);
                match r {
                    Ok(()) => layer_digests@.len() == pow2(layer_depth as nat) && index < pow2(
                        tree_depth as nat,
                    ) && old(proof_reader)@.len() >= d && final(proof_reader)@ == old(
                        proof_reader,
                    )@.skip(d as int) && replayed == layer_digests@[layer_pos as int]@,
                    Err(e) => if layer_digests@.len() != pow2(layer_depth as nat) {
                        e == Error::IncorrectVectorLength && final(proof_reader)@ == old(
                            proof_reader,
                        )@
                    } else if index >= pow2(tree_depth as nat) {
                        e == (Error::IndexOutOfRange {
                            max: (pow2(tree_depth as nat) - 1) as usize,
                        }) && final(proof_reader)@ == old(proof_reader)@
                    } else if old(proof_reader)@.len() < d {
                        e == Error::TranscriptUnderrun && final(proof_reader)@ == old(
                            proof_reader,
                        )@
                    } else {
                        e == Error::InvalidProof && final(proof_reader)@ == old(
                            proof_reader,
                        )@.skip(d as int) && replayed != layer_digests@[layer_pos as int]@
                    },
                }
            }),
    {
        if !layer_len_matches(layer_digests, layer_depth) {
            return Err(Error::IncorrectVectorLength);
        }
        let bound = pow2_exec(tree_depth);
        proof {
            lemma_pow2_pos(tree_depth as nat);
        }
        if index >= bound {
            return Err(Error::IndexOutOfRange { max: bound - 1 });
        }
        let mut leaf = self.hasher.hash_leaf(values);
        let depth_diff = tree_depth - layer_depth;
        let siblings = match proof_reader.read_vec(depth_diff) {
            Err(e) => {
                return Err(e);
            },
            Ok(v) => v,
        };
        let ghost path = digest_views(siblings@);
        let ghost leaf0 = self.hasher.leaf_hash_spec(values@);
        let ghost goal = replay_spec(self.compression, leaf0, index as nat, path);
        let mut idx: usize = index;
        let mut k: usize = 0;
        proof {
            assert(path.skip(0) =~= path);
            vstd::arithmetic::power2::lemma2_to64();
        }
        while k < depth_diff
            invariant
                k <= depth_diff,
                siblings@.len() == depth_diff,
                path == digest_views(siblings@),
                idx <= index,
                idx as nat == (index as nat) / pow2(k as nat),
                replay_spec(self.compression, leaf@, idx as nat, path.skip(k as int)) == goal,
            decreases depth_diff - k,
        {
            let s = &siblings[k];
            let combined = if idx % 2 == 0 {
                self.compression.compress(&leaf, s)
            } else {
                self.compression.compress(s, &leaf)
            };
            proof {
                assert(path.skip(k as int)[0] == path[k as int]);
                assert(path.skip(k as int).skip(1) =~= path.skip(k + 1));
                lemma_pow2_unfold((k + 1) as nat);
                lemma_pow2_pos(k as nat);
                lemma_div_denominator(index as int, pow2(k as nat) as int, 2);
                vstd::arithmetic::div_mod::lemma_div_is_ordered_by_denominator(
                    index as int,
                    1,
                    pow2((k + 1) as nat) as int,
                );
            }
            leaf = combined;
            idx = idx / 2;
            k = k + 1;
        }
        proof {
            assert(path.skip(depth_diff as int) =~= Seq::<Seq<u8>>::empty());
            assert(leaf@ == goal);
            lemma_pow2_adds(layer_depth as nat, (tree_depth - layer_depth) as nat);
            vstd::arithmetic::mul::lemma_mul_is_commutative(
                pow2(layer_depth as nat) as int,
                pow2((tree_depth - layer_depth) as nat) as int,
            );
            lemma_multiply_divide_lt(
                index as int,
                pow2((tree_depth - layer_depth) as nat) as int,
                pow2(layer_depth as nat) as int,
            );
        }
        let node = vstd::slice::slice_index_get(layer_digests, idx);
        if leaf.eq(node) {
            Ok(())
        } else {
            Err(Error::InvalidProof)
        }
    }
}

/// Whether a claimed layer holds exactly `2^layer_depth` digests.
fn layer_len_matches(layer_digests: &[Digest], layer_depth: usize) -> (r: bool)
    ensures
        r == (layer_digests@.len() == pow2(layer_depth as nat)),
{
    match checked_log2(layer_digests.len()) {
        None => {
            proof {
                lemma_pow2_is_pow2(layer_depth as nat);
            }
            false
        },
        Some(k) => {
            proof {
                if k != layer_depth {
                    if layer_digests@.len() == pow2(layer_depth as nat) {
                        lemma_pow2_injective(k as nat, layer_depth as nat);
                    }
                }
            }
            k == layer_depth
        },
    }
}

/// A callee-owned copy of a digest slice, so that in-place folding never
/// touches caller-visible data.
fn copy_digests(src: &[Digest]) -> (r: Vec<Digest>)
    ensures
        r@.len() == src@.len(),
        forall|i: int| 0 <= i < src@.len() ==> r@[i]@ == src@[i]@,
{
    let mut out: Vec<Digest> = Vec::new();
    let mut i: usize = 0;
    while i < src.len()
        invariant
            i <= src@.len(),
            out@.len() == i,
            forall|j: int| 0 <= j < i ==> out@[j]@ == src@[j]@,
        decreases src@.len() - i,
    {
        let d = vstd::slice::slice_index_get(src, i).clone();
        out.push(d);
        i = i + 1;
    }
    out
}

} // verus!
