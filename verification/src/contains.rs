//! Vectorized containment test: any nonzero chunk mask answers `true` without
//! decoding an index.
use crate::element::SimdElement;
use crate::mask::{cmp_mask, cmp_matches, lemma_body_start, lemma_chunk_in_range, CmpOp};
use crate::LANE_COUNT;
use vstd::prelude::*;

verus! {

/// Vectorized `contains`: whether any element equals a needle.
pub trait ContainsSimd<T: SimdElement>: View<V = Seq<T>> {
    /// Whether some element of the sequence equals `needle`.
    fn contains_simd(&self, needle: &T) -> (r: bool)
        ensures
            r == self@.contains(*needle),
    ;
}

impl<T: SimdElement> ContainsSimd<T> for Vec<T> {
    fn contains_simd(&self, needle: &T) -> (r: bool) {
        let len = self.len();
        let chunks = len / LANE_COUNT;
        let mut c: usize = 0;
        while c < chunks
            invariant
                c <= chunks,
                forall|j: int| 0 <= j < c * 8 ==> self@[j] != *needle,
            decreases chunks - c,
        {
            proof {
                lemma_chunk_in_range(c as int, len as int);
            }
            let base = c * LANE_COUNT;
            let m = cmp_mask(self, base, *needle, CmpOp::Eq);
            if m != 0 {
                proof {
                    let w = choose|j: int|
                        base <= j < base + 8 && cmp_matches(self@[j], *needle, CmpOp::Eq);
                    assert(self@[w] == *needle);
                }
                return true;
            }
            c += 1;
        }
        let mut i: usize = chunks * LANE_COUNT;
        proof {
            lemma_body_start(len as int);
        }
        while i < len
            invariant
                chunks * 8 <= i <= len,
                forall|j: int| 0 <= j < i ==> self@[j] != *needle,
            decreases len - i,
        {
            if self[i].eq_val(*needle) {
                return true;
            }
            i += 1;
        }
        proof {
            if self@.contains(*needle) {
                let w = choose|j: int| 0 <= j < self@.len() && self@[j] == *needle;
                assert(false);
            }
        }
        false
    }
}

} // verus!
