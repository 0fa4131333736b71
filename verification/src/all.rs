//! Vectorized `all`: a boolean reduction of an arbitrary per-element
//! predicate, combined without branching across each chunk.
use crate::element::SimdElement;
use crate::mask::{lemma_body_start, lemma_chunk_in_range};
use crate::LANE_COUNT;
use vstd::prelude::*;

verus! {

/// Vectorized `all` over an arbitrary predicate.
pub trait AllSimd<T: SimdElement>: View<V = Seq<T>> {
    /// Whether the predicate holds of every element; true for the empty
    /// sequence.  The per-element results of a chunk are combined with a
    /// branch-free conjunction, and the scan stops at the first failing
    /// chunk.
    fn all_simd<F: Fn(T) -> bool>(&self, f: F) -> (r: bool)
        requires
            forall|i: int| 0 <= i < self@.len() ==> call_requires(f, (self@[i],)),
        ensures
            r ==> (forall|i: int| 0 <= i < self@.len() ==> call_ensures(f, (self@[i],), true)),
            !r ==> (exists|i: int| 0 <= i < self@.len() && call_ensures(f, (self@[i],), false)),
    ;
}

impl<T: SimdElement> AllSimd<T> for Vec<T> {
    fn all_simd<F: Fn(T) -> bool>(&self, f: F) -> (r: bool) {
        let len = self.len();
        let chunks = len / LANE_COUNT;
        let mut c: usize = 0;
        while c < chunks
            invariant
                c <= chunks,
                forall|i: int| 0 <= i < c * 8 ==> call_ensures(f, (self@[i],), true),
            decreases chunks - c,
        {
            proof {
                lemma_chunk_in_range(c as int, len as int);
            }
            let base = c * LANE_COUNT;
            let mut acc = true;
            let mut k: usize = 0;
            while k < LANE_COUNT
                invariant
                    k <= 8,
                    acc ==> (forall|i: int|
                        base <= i < base + k ==> call_ensures(f, (self@[i],), true)),
                    !acc ==> (exists|i: int|
                        base <= i < base + k && call_ensures(f, (self@[i],), false)),
                decreases 8 - k,
            {
                let b = f(self[base + k]);
                acc = acc && b;
                k += 1;
            }
            if !acc {
                return false;
            }
            c += 1;
        }
        let mut i: usize = chunks * LANE_COUNT;
        proof {
            lemma_body_start(len as int);
        }
        while i < len
            invariant
                chunks * 8 <= i <= len,
                forall|j: int| 0 <= j < i ==> call_ensures(f, (self@[j],), true),
            decreases len - i,
        {
            if !f(self[i]) {
                return false;
            }
            i += 1;
        }
        true
    }
}

} // verus!
