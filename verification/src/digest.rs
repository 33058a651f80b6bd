//! The digest type: a fixed-size opaque byte string, the output of a
//! cryptographic hash. The scheme interprets no internal structure of a
//! digest; it only compares digests for equality and feeds them to the
//! compression function.

use vstd::prelude::*;

verus! {

/// Number of bytes in a digest.
pub const DIGEST_SIZE: usize = 32;

/// A fixed-size hash digest. Its mathematical model is its byte sequence,
/// which always has length [`DIGEST_SIZE`].
#[derive(Debug)]
pub struct Digest {
    bytes: Vec<u8>,
}

impl View for Digest {
    type V = Seq<u8>;

    closed spec fn view(&self) -> Seq<u8> {
        self.bytes@
    }
}

impl Digest {
    /// Every digest holds exactly [`DIGEST_SIZE`] bytes.
    #[verifier::type_invariant]
    pub closed spec fn type_inv(self) -> bool {
        self.bytes@.len() == DIGEST_SIZE
    }

    /// What the type invariant gives about the view: the fixed length.
    pub proof fn lemma_wf(self)
        requires
            self.type_inv(),
        ensures
            self@.len() == DIGEST_SIZE,
    {
    }

    /// Builds a digest from its bytes; rejects byte strings of the wrong
    /// length.
    pub fn from_bytes(bytes: Vec<u8>) -> (r: Option<Digest>)
        ensures
            bytes@.len() == DIGEST_SIZE ==> (r matches Some(d) && d@ == bytes@),
            bytes@.len() != DIGEST_SIZE ==> r is None,
    {
        if bytes.len() == DIGEST_SIZE {
            Some(Digest { bytes })
        } else {
            None
        }
    }

    /// Builds a digest from a byte vector already known to have the right
    /// length.
    pub fn from_exact_bytes(bytes: Vec<u8>) -> (r: Digest)
        requires
            bytes@.len() == DIGEST_SIZE,
        ensures
            r@ == bytes@,
    {
        Digest { bytes }
    }

    /// The bytes of the digest.
    pub fn as_bytes(&self) -> (r: &Vec<u8>)
        ensures
            r@ == self@,
    {
        &self.bytes
    }
}

impl Clone for Digest {
    fn clone(&self) -> (r: Self)
        ensures
            r@ == self@,
    {
        proof {
            use_type_invariant(self);
        }
        Digest { bytes: vstd::slice::slice_to_vec(self.bytes.as_slice()) }
    }
}

impl Default for Digest {
    /// The all-zero digest, an identity-like placeholder.
    fn default() -> (r: Self)
        ensures
            r@.len() == DIGEST_SIZE,
            forall|i: int| 0 <= i < DIGEST_SIZE ==> r@[i] == 0u8,
    {
        let mut bytes: Vec<u8> = Vec::new();
        let mut i: usize = 0;
        while i < DIGEST_SIZE
            invariant
                i <= DIGEST_SIZE,
                bytes@.len() == i,
                forall|j: int| 0 <= j < i ==> bytes@[j] == 0u8,
            decreases DIGEST_SIZE - i,
        {
            bytes.push(0u8);
            i = i + 1;
        }
        Digest { bytes }
    }
}

/// Byte-wise comparison of two byte vectors, equivalent to equality of
/// their sequence views.
fn bytes_equal(a: &Vec<u8>, b: &Vec<u8>) -> (r: bool)
    ensures
        r == (a@ == b@),
{
    if a.len() != b.len() {
        return false;
    }
    let mut i: usize = 0;
    while i < a.len()
        invariant
            i <= a@.len(),
            a@.len() == b@.len(),
            forall|j: int| 0 <= j < i ==> a@[j] == b@[j],
        decreases a@.len() - i,
    {
        if a[i] != b[i] {
            return false;
        }
        i = i + 1;
    }
    proof {
        assert(a@ =~= b@);
    }
    true
}

impl PartialEq for Digest {
    fn eq(&self, other: &Self) -> (r: bool) {
        bytes_equal(&self.bytes, &other.bytes)
    }
}

impl vstd::std_specs::cmp::PartialEqSpecImpl for Digest {
    open spec fn obeys_eq_spec() -> bool {
        true
    }

    open spec fn eq_spec(&self, other: &Digest) -> bool {
        self@ == other@
    }
}

} // verus!
