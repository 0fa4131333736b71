//! Vectorized sortedness test: compare each chunk against the same chunk
//! shifted by one element, so a whole chunk of adjacent pairs is checked per
//! mask; any set bit is a descending pair.
use crate::element::SimdElement;
use crate::mask::{adjacent_gt_mask, lemma_body_start, lemma_chunk_in_range};
use crate::LANE_COUNT;
use vstd::prelude::*;

verus! {

/// Whether the sequence ascends non-strictly: every adjacent pair is in
/// order.
pub open spec fn sorted<T: SimdElement>(s: Seq<T>) -> bool {
    forall|i: int| 0 <= i < s.len() - 1 ==> (#[trigger] s[i]).as_int() <= s[i + 1].as_int()
}

/// Vectorized test for non-strict ascending order.
pub trait IsSortedSimd<T: SimdElement>: View<V = Seq<T>> {
    /// Whether the sequence is sorted ascending, non-strictly; vacuously true
    /// for the empty sequence.
    fn is_sorted_simd(&self) -> (r: bool)
        ensures
            r == sorted(self@),
    ;
}

impl<T: SimdElement> IsSortedSimd<T> for Vec<T> {
    fn is_sorted_simd(&self) -> (r: bool) {
        let len = self.len();
        if len <= LANE_COUNT {
            // Below one whole chunk of pairs the decomposition buys nothing:
            // scan the adjacent pairs directly.
            if len == 0 {
                return true;
            }
            let mut i: usize = 0;
            while i < len - 1
                invariant
                    len >= 1,
                    i <= len - 1,
                    forall|j: int| 0 <= j < i ==> (#[trigger] self@[j]).as_int() <= self@[j
                        + 1].as_int(),
                decreases len - i,
            {
                if self[i + 1].lt_val(self[i]) {
                    return false;
                }
                i += 1;
            }
            return true;
        }
        // There are len - 1 adjacent pairs; scan them a whole chunk at a time.
        let pairs = len - 1;
        let chunks = pairs / LANE_COUNT;
        let mut c: usize = 0;
        while c < chunks
            invariant
                c <= chunks,
                forall|j: int| 0 <= j < c * 8 ==> (#[trigger] self@[j]).as_int() <= self@[j
                    + 1].as_int(),
            decreases chunks - c,
        {
            proof {
                lemma_chunk_in_range(c as int, pairs as int);
            }
            let base = c * LANE_COUNT;
            let m = adjacent_gt_mask(self, base);
            if m != 0 {
                return false;
            }
            c += 1;
        }
        let mut i: usize = chunks * LANE_COUNT;
        proof {
            lemma_body_start(pairs as int);
        }
        while i < pairs
            invariant
                chunks * 8 <= i <= pairs,
                forall|j: int| 0 <= j < i ==> (#[trigger] self@[j]).as_int() <= self@[j + 1].as_int(),
            decreases pairs - i,
        {
            if self[i + 1].lt_val(self[i]) {
                return false;
            }
            i += 1;
        }
        true
    }
}

} // verus!
