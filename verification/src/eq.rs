//! Vectorized sequence equality: a length check, a scalar fast path for short
//! inputs, then pairwise chunk comparison with a short-circuit on the first
//! nonzero inequality mask, and a scalar tail.
use crate::element::SimdElement;
use crate::mask::{lemma_body_start, lemma_chunk_in_range, ne_mask};
use crate::LANE_COUNT;
use vstd::prelude::*;

verus! {

/// Vectorized elementwise equality of two sequences.
pub trait EqSimd<T: SimdElement>: View<V = Seq<T>> {
    /// Whether the two sequences have the same length and agree at every
    /// position.
    fn eq_simd(&self, other: &Self) -> (r: bool)
        ensures
            r == (self@ =~= other@),
    ;
}

impl<T: SimdElement> EqSimd<T> for Vec<T> {
    fn eq_simd(&self, other: &Vec<T>) -> (r: bool) {
        let len = self.len();
        if len != other.len() {
            return false;
        }
        if len <= LANE_COUNT {
            // Below one whole chunk the decomposition buys nothing: compare
            // directly.
            let mut i: usize = 0;
            while i < len
                invariant
                    i <= len,
                    forall|j: int| 0 <= j < i ==> self@[j] == other@[j],
                decreases len - i,
            {
                if !self[i].eq_val(other[i]) {
                    return false;
                }
                i += 1;
            }
            proof {
                assert(self@ =~= other@);
            }
            return true;
        }
        let chunks = len / LANE_COUNT;
        let mut c: usize = 0;
        while c < chunks
            invariant
                c <= chunks,
                forall|j: int| 0 <= j < c * 8 ==> self@[j] == other@[j],
            decreases chunks - c,
        {
            proof {
                lemma_chunk_in_range(c as int, len as int);
            }
            let base = c * LANE_COUNT;
            let m = ne_mask(self, other, base);
            if m != 0 {
                return false;
            }
            c += 1;
        }
        let mut i: usize = chunks * LANE_COUNT;
        proof {
            lemma_body_start(len as int);
        }
        while i < len
            invariant
                chunks * 8 <= i <= len,
                forall|j: int| 0 <= j < i ==> self@[j] == other@[j],
            decreases len - i,
        {
            if !self[i].eq_val(other[i]) {
                return false;
            }
            i += 1;
        }
        proof {
            assert(self@ =~= other@);
        }
        true
    }
}

} // verus!
