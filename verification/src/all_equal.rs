//! Vectorized all-equal test: broadcast the first element and short-circuit
//! on the first chunk whose inequality mask is nonzero.
use crate::element::SimdElement;
use crate::mask::{lemma_body_start, lemma_chunk_in_range, ne_broadcast_mask};
use crate::LANE_COUNT;
use vstd::prelude::*;

verus! {

/// Vectorized test that every element equals the first one.
pub trait AllEqualSimd<T: SimdElement>: View<V = Seq<T>> {
    /// Whether every element equals the first element; vacuously true for the
    /// empty sequence.
    fn all_equal_simd(&self) -> (r: bool)
        ensures
            r == (forall|i: int| 0 <= i < self@.len() ==> #[trigger] self@[i] == self@[0]),
    ;
}

impl<T: SimdElement> AllEqualSimd<T> for Vec<T> {
    fn all_equal_simd(&self) -> (r: bool) {
        let len = self.len();
        if len == 0 {
            return true;
        }
        let first = self[0];
        let chunks = len / LANE_COUNT;
        let mut c: usize = 0;
        while c < chunks
            invariant
                c <= chunks,
                forall|j: int| 0 <= j < c * 8 ==> self@[j] == first,
            decreases chunks - c,
        {
            proof {
                lemma_chunk_in_range(c as int, len as int);
            }
            let base = c * LANE_COUNT;
            let m = ne_broadcast_mask(self, base, first);
            if m != 0 {
                return false;
            }
            c += 1;
        }
        let mut i: usize = chunks * LANE_COUNT;
        proof {
            lemma_body_start(len as int);
        }
        while i < len
            invariant
                chunks * 8 <= i <= len,
                forall|j: int| 0 <= j < i ==> self@[j] == first,
            decreases len - i,
        {
            if !self[i].eq_val(first) {
                return false;
            }
            i += 1;
        }
        true
    }
}

} // verus!
