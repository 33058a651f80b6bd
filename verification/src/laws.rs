//! Laws of the scheme, stated over the same models its contracts use:
//! the authentic tree layers, the authentic authentication path, and the
//! theorem that layer verification and opening verification agree with
//! folding — a true layer folds to the root, and every leaf's true path
//! replays to its ancestor in that layer.

use vstd::prelude::*;
use vstd::arithmetic::power2::{pow2, lemma_pow2_pos, lemma_pow2_unfold, lemma2_to64};
use vstd::arithmetic::div_mod::{
    lemma_div_denominator, lemma_multiply_divide_lt, lemma_fundamental_div_mod,
};
use crate::folding::{compress_level, fold_spec};
use crate::hashing::Compressor;
use crate::scheme::replay_spec;

verus! {

/// The authentic tree layer `k` levels above the given leaf digests
/// (`k = 0` is the leaf layer itself). In root-ward counting, a tree of
/// depth `t` has its layer of depth `layer_depth` at
/// `tree_layer(c, leaves, t - layer_depth)`.
pub open spec fn tree_layer<C: Compressor>(c: C, leaves: Seq<Seq<u8>>, k: nat) -> Seq<Seq<u8>>
    decreases k,
{
    if k == 0 {
        leaves
    } else {
        tree_layer(c, compress_level(c, leaves), (k - 1) as nat)
    }
}

/// The position of the sibling needed at level `k` when walking from
/// leaf `index` toward the root: the neighbor of the leaf's ancestor.
pub open spec fn sibling_index(index: nat, k: nat) -> nat {
    let pos = index / pow2(k);
    if pos % 2 == 0 {
        pos + 1
    } else {
        (pos - 1) as nat
    }
}

/// The authentic authentication path for `index`, `d` levels long,
/// leaf-ward first: the sibling digest at each level.
pub open spec fn auth_path<C: Compressor>(
    c: C,
    leaves: Seq<Seq<u8>>,
    index: nat,
    d: nat,
) -> Seq<Seq<u8>> {
    Seq::new(d, |k: int| tree_layer(c, leaves, k as nat)[sibling_index(index, k as nat) as int])
}

/// Each level halves the layer: `k` levels above `2^t` leaves stand
/// `2^(t - k)` digests.
pub proof fn lemma_tree_layer_len<C: Compressor>(c: C, leaves: Seq<Seq<u8>>, t: nat, k: nat)
    requires
        leaves.len() == pow2(t),
        k <= t,
    ensures
        tree_layer(c, leaves, k).len() == pow2((t - k) as nat),
    decreases k,
{
    if k > 0 {
        lemma_pow2_unfold(t);
        lemma_tree_layer_len(c, compress_level(c, leaves), (t - 1) as nat, (k - 1) as nat);
    }
}

/// A true layer folds to the same root as the leaves it was derived
/// from: this is why a layer verified against the root can serve as the
/// trust anchor for openings.
pub proof fn lemma_tree_layer_folds_to_root<C: Compressor>(
    c: C,
    leaves: Seq<Seq<u8>>,
    t: nat,
    k: nat,
)
    requires
        leaves.len() == pow2(t),
        k <= t,
    ensures
        fold_spec(c, tree_layer(c, leaves, k)) == fold_spec(c, leaves),
    decreases k,
{
    if k > 0 {
        lemma_pow2_unfold(t);
        lemma_pow2_pos((t - 1) as nat);
        assert(leaves.len() >= 2);
        assert(fold_spec(c, leaves) == fold_spec(c, compress_level(c, leaves)));
        lemma_tree_layer_folds_to_root(c, compress_level(c, leaves), (t - 1) as nat, (k - 1) as nat);
    }
}

/// Replaying the authentic authentication path from a true leaf digest
/// reaches exactly the leaf's ancestor in the target layer. With `d = 0`
/// the path is empty and the "layer node" is the leaf digest itself.
pub proof fn lemma_replay_auth_path<C: Compressor>(
    c: C,
    leaves: Seq<Seq<u8>>,
    t: nat,
    index: nat,
    d: nat,
)
    requires
        leaves.len() == pow2(t),
        index < pow2(t),
        d <= t,
    ensures
        replay_spec(c, leaves[index as int], index, auth_path(c, leaves, index, d)) == tree_layer(
            c,
            leaves,
            d,
        )[(index / pow2(d)) as int],
    decreases d,
{
    let path = auth_path(c, leaves, index, d);
    if d == 0 {
        assert(path.len() == 0);
        assert(pow2(0) == 1) by {
            lemma2_to64();
        }
        assert(index / 1 == index);
    } else {
        lemma_pow2_unfold(t);
        lemma_pow2_pos((t - 1) as nat);
        let level1 = compress_level(c, leaves);
        let half = index / 2;
        lemma_fundamental_div_mod(index as int, 2);
        assert(pow2(0) == 1) by {
            lemma2_to64();
        }
        assert(index / 1 == index);
        assert(sibling_index(index, 0) == if index % 2 == 0 {
            index + 1
        } else {
            (index - 1) as nat
        });
        assert(level1[half as int] == c.compress_spec(
            leaves[2 * (half as int)],
            leaves[2 * (half as int) + 1],
        ));
        let combined = if index % 2 == 0 {
            c.compress_spec(leaves[index as int], path[0])
        } else {
            c.compress_spec(path[0], leaves[index as int])
        };
        assert(combined == level1[half as int]);
        assert(replay_spec(c, leaves[index as int], index, path) == replay_spec(
            c,
            combined,
            half,
            path.skip(1),
        ));
        assert forall|k: int| 0 <= k < d - 1 implies path.skip(1)[k] == auth_path(
            c,
            level1,
            half,
            (d - 1) as nat,
        )[k] by {
            let kn = k as nat;
            assert(tree_layer(c, leaves, kn + 1) == tree_layer(c, level1, kn));
            lemma_pow2_unfold((kn + 1) as nat);
            lemma_pow2_pos(kn);
            lemma_div_denominator(index as int, 2, pow2(kn) as int);
            assert(sibling_index(index, kn + 1) == sibling_index(half, kn));
        }
        assert(path.skip(1) =~= auth_path(c, level1, half, (d - 1) as nat));
        lemma_multiply_divide_lt(index as int, 2, pow2((t - 1) as nat) as int);
        lemma_replay_auth_path(c, level1, (t - 1) as nat, half, (d - 1) as nat);
        assert(tree_layer(c, leaves, d) == tree_layer(c, level1, (d - 1) as nat));
        lemma_pow2_unfold(d);
        lemma_pow2_pos((d - 1) as nat);
        lemma_div_denominator(index as int, 2, pow2((d - 1) as nat) as int);
        assert(half / pow2((d - 1) as nat) == index / pow2(d));
    }
}

/// Layer/opening consistency: over `2^t` leaf digests, the authentic
/// layer at root-ward depth `layer_depth` (i) holds `2^layer_depth`
/// digests, (ii) folds to the same root as the leaves, and (iii) is hit
/// exactly by replaying any leaf's authentic authentication path of
/// length `t - layer_depth`, at position `index / 2^(t - layer_depth)`.
///
/// Together with the contracts of `verify_layer` and `verify_opening`,
/// this says that a true layer and every true opening verify.
pub proof fn lemma_layer_opening_consistency<C: Compressor>(
    c: C,
    leaves: Seq<Seq<u8>>,
    t: nat,
    layer_depth: nat,
    index: nat,
)
    requires
        leaves.len() == pow2(t),
        layer_depth <= t,
        index < pow2(t),
    ensures
        tree_layer(c, leaves, (t - layer_depth) as nat).len() == pow2(layer_depth),
        fold_spec(c, tree_layer(c, leaves, (t - layer_depth) as nat)) == fold_spec(c, leaves),
        replay_spec(
            c,
            leaves[index as int],
            index,
            auth_path(c, leaves, index, (t - layer_depth) as nat),
        ) == tree_layer(c, leaves, (t - layer_depth) as nat)[(index / pow2(
            (t - layer_depth) as nat,
        )) as int],
{
    lemma_tree_layer_len(c, leaves, t, (t - layer_depth) as nat);
    lemma_tree_layer_folds_to_root(c, leaves, t, (t - layer_depth) as nat);
    lemma_replay_auth_path(c, leaves, t, index, (t - layer_depth) as nat);
}

} // verus!
