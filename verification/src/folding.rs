//! The digest folding routine: repeatedly pairwise-compresses neighboring
//! digests — always left then right — until a single root digest remains.
//! Both vector and layer verification reduce to one fold.

use vstd::prelude::*;
use vstd::arithmetic::power2::is_pow2;
use crate::digest::Digest;
use crate::errors::Error;
use crate::hashing::Compressor;

verus! {

/// The byte-sequence models of a sequence of digests.
pub open spec fn digest_views(s: Seq<Digest>) -> Seq<Seq<u8>> {
    s.map_values(|d: Digest| d@)
}

/// One folding level: position `i` of the result compresses positions
/// `2 * i` and `2 * i + 1`, in that order.
pub open spec fn compress_level<C: Compressor>(c: C, s: Seq<Seq<u8>>) -> Seq<Seq<u8>> {
    Seq::new(s.len() / 2, |i: int| c.compress_spec(s[2 * i], s[2 * i + 1]))
}

/// The digest a sequence folds down to: levels are compressed until one
/// digest remains. (On an empty sequence — which folding rejects — this
/// is the empty byte string.)
pub open spec fn fold_spec<C: Compressor>(c: C, s: Seq<Seq<u8>>) -> Seq<u8>
    decreases s.len(),
{
    if s.len() == 0 {
        Seq::empty()
    } else if s.len() == 1 {
        s[0]
    } else {
        fold_spec(c, compress_level(c, s))
    }
}

/// Folding a pair applies the compression exactly once: left then right.
pub proof fn lemma_fold_pair<C: Compressor>(c: C, a: Seq<u8>, b: Seq<u8>)
    ensures
        fold_spec(c, seq![a, b]) == c.compress_spec(a, b),
{
    let s = seq![a, b];
    assert(compress_level(c, s) =~= seq![c.compress_spec(a, b)]);
    assert(fold_spec(c, compress_level(c, s)) == c.compress_spec(a, b));
}

/// Order-sensitivity of folding: wherever the compression itself is
/// sensitive to the order of its two arguments, so is the fold of the
/// pair. (A commutative compression is exempt, which is why the scheme
/// never assumes commutativity.)
pub proof fn lemma_fold_order_sensitive<C: Compressor>(c: C, a: Seq<u8>, b: Seq<u8>)
    requires
        c.compress_spec(a, b) != c.compress_spec(b, a),
    ensures
        fold_spec(c, seq![a, b]) != fold_spec(c, seq![b, a]),
{
    lemma_fold_pair(c, a, b);
    lemma_fold_pair(c, b, a);
}

/// Merkle-tree-like folding, in place: for each level, overwrite the low
/// half of the working window with the compression of adjacent pairs,
/// until `digests[0]` holds the root.
///
/// Rejects sequences whose length is not a power of two (the empty
/// sequence included) and leaves them unchanged.
pub fn fold_digests_vector_inplace<C: Compressor>(
    compression: &C,
    digests: &mut Vec<Digest>,
) -> (r: Result<(), Error>)
    ensures
        match r {
            Ok(()) => is_pow2(old(digests)@.len() as int) && final(digests)@.len() == old(
                digests,
            )@.len() && final(digests)@[0]@ == fold_spec(*compression, digest_views(old(digests)@)),
            Err(e) => {
                &&& e == Error::PowerOfTwoLengthRequired
                &&& !is_pow2(old(digests)@.len() as int)
                &&& final(digests)@ == old(digests)@
            },
        },
{
    let total = digests.len();
    match crate::bits::checked_log2(total) {
        None => Err(Error::PowerOfTwoLengthRequired),
        Some(log_len) => {
            let ghost orig = digest_views(digests@);
            let ghost root = fold_spec(*compression, orig);
            let mut len: usize = total / 2;
            proof {
                assert(digest_views(digests@).subrange(0, total as int) =~= orig);
                if log_len == 0 {
                    assert(total == 1) by {
                        vstd::arithmetic::power2::lemma2_to64();
                    }
                    assert(orig.len() == 1);
                    assert(root == orig[0]);
                    assert(digests@[0]@ == orig[0]);
                } else {
                    vstd::arithmetic::power2::lemma_pow2_unfold(log_len as nat);
                    vstd::arithmetic::power2::lemma_pow2_pos((log_len - 1) as nat);
                    assert(len == vstd::arithmetic::power2::pow2((log_len - 1) as nat));
                    crate::bits::lemma_pow2_is_pow2((log_len - 1) as nat);
                    assert(len >= 1);
                }
            }
            while len != 0
                invariant
                    2 * len <= total,
                    total == digests@.len(),
                    len == 0 || is_pow2(len as int),
                    len > 0 ==> fold_spec(
                        *compression,
                        digest_views(digests@).subrange(0, 2 * len as int),
                    ) == root,
                    len == 0 ==> digests@[0]@ == root,
                decreases len,
            {
                let ghost window = digest_views(digests@).subrange(0, 2 * len as int);
                let mut i: usize = 0;
                while i < len
                    invariant
                        i <= len,
                        2 * len <= total,
                        total == digests@.len(),
                        window.len() == 2 * len,
                        forall|j: int| i <= j < 2 * len ==> digests@[j]@ == window[j],
                        forall|j: int|
                            0 <= j < i ==> digests@[j]@ == compress_level(*compression, window)[j],
                    decreases len - i,
                {
                    let left = digests[2 * i].clone();
                    let right = digests[2 * i + 1].clone();
                    let combined = compression.compress(&left, &right);
                    digests[i] = combined;
                    i = i + 1;
                }
                proof {
                    assert(digest_views(digests@).subrange(0, len as int) =~= compress_level(
                        *compression,
                        window,
                    ));
                    assert(fold_spec(*compression, window) == fold_spec(
                        *compression,
                        compress_level(*compression, window),
                    ));
                    if len == 1 {
                        assert(fold_spec(*compression, compress_level(*compression, window))
                            == compress_level(*compression, window)[0]);
                        assert(digests@[0]@ == compress_level(*compression, window)[0]);
                    } else {
                        reveal(is_pow2);
                        assert(len % 2 == 0 && is_pow2(len as int / 2));
                    }
                }
                len = len / 2;
            }
            Ok(())
        },
    }
}

} // verus!
