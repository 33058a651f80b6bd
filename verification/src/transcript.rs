//! The proof transcript: a sequential, forward-only cursor over the
//! digests a prover sent. Opening verification reads sibling digests from
//! it in order; reading past the end is a reported underrun, never a
//! silent truncation.

use vstd::prelude::*;
use crate::digest::Digest;
use crate::errors::Error;
use crate::folding::digest_views;

verus! {

/// A forward-reading cursor over a sequence of proof digests. Its model
/// is the byte-sequence views of the digests not yet consumed.
pub struct TranscriptReader {
    digests: Vec<Digest>,
    position: usize,
}

impl View for TranscriptReader {
    type V = Seq<Seq<u8>>;

    closed spec fn view(&self) -> Seq<Seq<u8>> {
        digest_views(self.digests@.skip(self.position as int))
    }
}

impl TranscriptReader {
    #[verifier::type_invariant]
    spec fn type_inv(self) -> bool {
        self.position <= self.digests@.len()
    }

    /// A cursor standing at the front of the given digests.
    pub fn new(digests: Vec<Digest>) -> (r: TranscriptReader)
        ensures
            r@ == digest_views(digests@),
    {
        let r = TranscriptReader { digests, position: 0 };
        proof {
            assert(r.digests@.skip(0) =~= r.digests@);
        }
        r
    }

    /// How many digests are left to read.
    pub fn remaining(&self) -> (r: usize)
        ensures
            r == self@.len(),
    {
        proof {
            use_type_invariant(self);
        }
        self.digests.len() - self.position
    }

    /// Reads the next `n` digests, in order, advancing the cursor past
    /// them. If fewer than `n` remain, reports an underrun and leaves the
    /// cursor where it was.
    pub fn read_vec(&mut self, n: usize) -> (r: Result<Vec<Digest>, Error>)
        ensures
            match r {
                Ok(v) => {
                    &&& n <= old(self)@.len()
                    &&& digest_views(v@) == old(self)@.take(n as int)
                    &&& final(self)@ == old(self)@.skip(n as int)
                },
                Err(e) => {
                    &&& e == Error::TranscriptUnderrun
                    &&& n > old(self)@.len()
                    &&& final(self)@ == old(self)@
                },
            },
    {
        proof {
            use_type_invariant(&*self);
        }
        if n > self.digests.len() - self.position {
            return Err(Error::TranscriptUnderrun);
        }
        let mut out: Vec<Digest> = Vec::new();
        let mut i: usize = 0;
        while i < n
            invariant
                i <= n,
                self.position + n <= self.digests@.len(),
                self.digests@.len() <= usize::MAX,
                out@.len() == i,
                forall|j: int|
                    0 <= j < i ==> out@[j]@ == self.digests@[self.position + j]@,
            decreases n - i,
        {
            let d = self.digests[self.position + i].clone();
            out.push(d);
            i = i + 1;
        }
        let ghost pre = *self;
        self.position = self.position + n;
        proof {
            assert(digest_views(out@) =~= pre@.take(n as int));
            assert(self@ =~= pre@.skip(n as int));
        }
        Ok(out)
    }
}

} // verus!
