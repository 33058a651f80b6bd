//! The two hashing capabilities the scheme is built from: a deterministic
//! 2-to-1 digest compression function (the Merkle tree's internal-node
//! rule) and a leaf hasher turning a chunk of field elements into a
//! digest. Both are traits the caller implements; each carries a
//! specification function that its executable method is proved against,
//! so everything the scheme guarantees is stated over those models.
//!
//! Committed field elements are carried as their canonical 128-bit values
//! (`u128`), so the scheme's contracts range over plain integers.
//!
//! [`MixingCompression`] and [`MixingLeafHasher`] are a fully verified,
//! non-cryptographic instantiation: a byte-wise mixing rule that is
//! deterministic and order-sensitive. They let the scheme be exercised
//! end to end; a production deployment supplies its own cryptographic
//! implementations of the traits.

use vstd::prelude::*;
use crate::digest::{Digest, DIGEST_SIZE};

verus! {

/// A pure, deterministic 2-to-1 compression function over digests.
///
/// `compress_spec` is the mathematical model over digest byte strings;
/// `compress` must return exactly what the model says. Nothing here
/// assumes commutativity: `compress(a, b)` and `compress(b, a)` are
/// unrelated.
pub trait Compressor: Sized {
    /// Model of the compression over the two digests' byte sequences.
    spec fn compress_spec(&self, a: Seq<u8>, b: Seq<u8>) -> Seq<u8>;

    /// Compresses two digests into one.
    fn compress(&self, a: &Digest, b: &Digest) -> (r: Digest)
        ensures
            r@ == self.compress_spec(a@, b@),
    ;
}

/// A hasher turning one leaf chunk of field elements into a digest.
pub trait LeafHasher: Sized {
    /// Model of the leaf hash over the chunk's element values.
    spec fn leaf_hash_spec(&self, chunk: Seq<u128>) -> Seq<u8>;

    /// Hashes one chunk of field elements to a digest.
    fn hash_leaf(&self, chunk: &[u128]) -> (r: Digest)
        ensures
            r@ == self.leaf_hash_spec(chunk@),
    ;
}

/// One mixing step: combines a state byte and an input byte with odd
/// multipliers (both invertible modulo 256), plus the lane index.
pub open spec fn mix_byte(s: u8, b: u8, lane: int) -> u8 {
    (((85 * (s as int) + 171 * (b as int) + lane) % 256) as u8)
}

/// The byte of `s` at position `i`, or zero past its end.
pub open spec fn byte_or_zero(s: Seq<u8>, i: int) -> u8 {
    if 0 <= i < s.len() {
        s[i]
    } else {
        0u8
    }
}

/// Model of [`MixingCompression`]: each output lane mixes the two input
/// lanes with distinct multipliers, so the combination is order-sensitive.
pub open spec fn mix_compress(a: Seq<u8>, b: Seq<u8>) -> Seq<u8> {
    Seq::new(
        DIGEST_SIZE as nat,
        |i: int| mix_byte(byte_or_zero(a, i), byte_or_zero(b, i), i),
    )
}

/// A verified, non-cryptographic 2-to-1 compression: deterministic and
/// order-sensitive, for tests and demonstration.
pub struct MixingCompression;

impl Compressor for MixingCompression {
    open spec fn compress_spec(&self, a: Seq<u8>, b: Seq<u8>) -> Seq<u8> {
        mix_compress(a, b)
    }

    fn compress(&self, a: &Digest, b: &Digest) -> (r: Digest) {
        proof {
            use_type_invariant(a);
            use_type_invariant(b);
            a.lemma_wf();
            b.lemma_wf();
        }
        let ab = a.as_bytes();
        let bb = b.as_bytes();
        let mut out: Vec<u8> = Vec::new();
        let mut i: usize = 0;
        while i < DIGEST_SIZE
            invariant
                i <= DIGEST_SIZE,
                ab@.len() == DIGEST_SIZE,
                bb@.len() == DIGEST_SIZE,
                out@.len() == i,
                forall|j: int| 0 <= j < i ==> out@[j] == mix_compress(ab@, bb@)[j],
            decreases DIGEST_SIZE - i,
        {
            let v: u16 = 85u16 * (ab[i] as u16) + 171u16 * (bb[i] as u16) + (i as u16);
            out.push((v % 256) as u8);
            i = i + 1;
        }
        proof {
            assert(out@ =~= mix_compress(ab@, bb@));
        }
        Digest::from_exact_bytes(out)
    }
}

/// The initial state of the leaf hash: lane `j` holds `j`.
pub open spec fn init_state() -> Seq<u8> {
    Seq::new(DIGEST_SIZE as nat, |j: int| j as u8)
}

/// The input byte an element contributes to a lane: byte `j % 16` of its
/// little-endian 128-bit value.
pub open spec fn elem_byte(e: u128, lane: int) -> u8 {
    (((e >> ((8 * (lane % 16)) as u128)) & 0xff) as u8)
}

/// Absorbs one element into the state: every lane is mixed with one byte
/// of the element.
pub open spec fn absorb(state: Seq<u8>, e: u128) -> Seq<u8> {
    Seq::new(state.len(), |j: int| mix_byte(state[j], elem_byte(e, j), j))
}

/// Absorbs a whole chunk, front to back.
pub open spec fn absorb_all(state: Seq<u8>, chunk: Seq<u128>) -> Seq<u8>
    decreases chunk.len(),
{
    if chunk.len() == 0 {
        state
    } else {
        absorb_all(absorb(state, chunk[0]), chunk.skip(1))
    }
}

/// Model of [`MixingLeafHasher`]: absorb every element, then the chunk
/// length, into the initial state.
pub open spec fn mix_leaf_hash(chunk: Seq<u128>) -> Seq<u8> {
    absorb(absorb_all(init_state(), chunk), chunk.len() as u128)
}

/// A verified, non-cryptographic leaf hasher over 128-bit field element
/// values, for tests and demonstration.
pub struct MixingLeafHasher;

/// Absorbing distributes over appending one element at the back.
proof fn lemma_absorb_all_snoc(state: Seq<u8>, chunk: Seq<u128>, e: u128)
    ensures
        absorb_all(state, chunk.push(e)) == absorb(absorb_all(state, chunk), e),
    decreases chunk.len(),
{
    if chunk.len() == 0 {
        assert(chunk.push(e).skip(1) =~= Seq::<u128>::empty());
        assert(chunk.push(e)[0] == e);
        assert(absorb_all(state, chunk.push(e)) == absorb_all(
            absorb(state, e),
            Seq::<u128>::empty(),
        ));
        assert(absorb_all(absorb(state, e), Seq::<u128>::empty()) == absorb(state, e));
        assert(absorb_all(state, chunk) == state);
    } else {
        assert(chunk.push(e)[0] == chunk[0]);
        assert(chunk.push(e).skip(1) =~= chunk.skip(1).push(e));
        lemma_absorb_all_snoc(absorb(state, chunk[0]), chunk.skip(1), e);
        assert(absorb_all(state, chunk.push(e)) == absorb_all(
            absorb(state, chunk[0]),
            chunk.skip(1).push(e),
        ));
    }
}

/// One executable absorption round; see [`absorb`].
fn absorb_exec(state: &Vec<u8>, e: u128) -> (r: Vec<u8>)
    requires
        state@.len() == DIGEST_SIZE,
    ensures
        r@ == absorb(state@, e),
{
    let mut out: Vec<u8> = Vec::new();
    let mut j: usize = 0;
    while j < DIGEST_SIZE
        invariant
            j <= DIGEST_SIZE,
            state@.len() == DIGEST_SIZE,
            out@.len() == j,
            forall|i: int| 0 <= i < j ==> out@[i] == absorb(state@, e)[i],
        decreases DIGEST_SIZE - j,
    {
        let b: u8 = ((e >> ((8 * (j as u128 % 16)) as u128)) & 0xff) as u8;
        assert(b == elem_byte(e, j as int));
        let v: u16 = 85u16 * (state[j] as u16) + 171u16 * (b as u16) + (j as u16);
        out.push((v % 256) as u8);
        j = j + 1;
    }
    proof {
        assert(out@ =~= absorb(state@, e));
    }
    out
}

impl LeafHasher for MixingLeafHasher {
    open spec fn leaf_hash_spec(&self, chunk: Seq<u128>) -> Seq<u8> {
        mix_leaf_hash(chunk)
    }

    fn hash_leaf(&self, chunk: &[u128]) -> (r: Digest) {
        let mut state: Vec<u8> = Vec::new();
        let mut j: usize = 0;
        while j < DIGEST_SIZE
            invariant
                j <= DIGEST_SIZE,
                state@.len() == j,
                forall|i: int| 0 <= i < j ==> state@[i] == init_state()[i],
            decreases DIGEST_SIZE - j,
        {
            state.push(j as u8);
            j = j + 1;
        }
        proof {
            assert(state@ =~= init_state());
        }
        let mut k: usize = 0;
        while k < chunk.len()
            invariant
                k <= chunk@.len(),
                state@.len() == DIGEST_SIZE,
                state@ == absorb_all(init_state(), chunk@.take(k as int)),
            decreases chunk@.len() - k,
        {
            let e = *vstd::slice::slice_index_get(chunk, k);
            state = absorb_exec(&state, e);
            proof {
                assert(chunk@.take(k + 1) =~= chunk@.take(k as int).push(chunk@[k as int]));
                lemma_absorb_all_snoc(init_state(), chunk@.take(k as int), chunk@[k as int]);
            }
            k = k + 1;
        }
        proof {
            assert(chunk@.take(chunk@.len() as int) =~= chunk@);
        }
        let out = absorb_exec(&state, chunk.len() as u128);
        Digest::from_exact_bytes(out)
    }
}

} // verus!
