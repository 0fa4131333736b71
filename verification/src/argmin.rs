//! Position of the first occurrence of the smallest element: a value
//! reduction followed by the vectorized first-match search.
use crate::element::SimdElement;
use crate::min::MinSimd;
use crate::position::PositionSimd;
use vstd::prelude::*;

verus! {

/// Position of the first smallest element, through the standard reduction.
pub trait ArgminSimd<T: SimdElement>: View<V = Seq<T>> {
    /// Index of the first element no larger than any other, or `None` for the
    /// empty sequence.
    fn argmin_simd(&self) -> (r: Option<usize>)
        ensures
            match r {
                Some(p) => p < self@.len() && (forall|i: int|
                    0 <= i < self@.len() ==> self@[p as int].as_int() <= (
                    #[trigger] self@[i]).as_int()) && (forall|j: int|
                    0 <= j < p ==> self@[p as int].as_int() < (#[trigger] self@[j]).as_int()),
                None => self@.len() == 0,
            },
    ;
}

/// Position of the first smallest element, through a pairwise fold.
pub trait ArgminSimdFast<T: SimdElement>: View<V = Seq<T>> {
    /// Index of the first element no larger than any other, or `None` for the
    /// empty sequence.  The reduction folds pairs with `a < b`, which on these
    /// totally ordered elements returns the same index as `argmin_simd`.
    fn argmin_simd_fast(&self) -> (r: Option<usize>)
        ensures
            match r {
                Some(p) => p < self@.len() && (forall|i: int|
                    0 <= i < self@.len() ==> self@[p as int].as_int() <= (
                    #[trigger] self@[i]).as_int()) && (forall|j: int|
                    0 <= j < p ==> self@[p as int].as_int() < (#[trigger] self@[j]).as_int()),
                None => self@.len() == 0,
            },
    ;
}

impl<T: SimdElement> ArgminSimd<T> for Vec<T> {
    fn argmin_simd(&self) -> (r: Option<usize>) {
        match self.min_simd() {
            Some(mn) => Some(locate_first_min(self, mn)),
            None => None,
        }
    }
}

impl<T: SimdElement> ArgminSimdFast<T> for Vec<T> {
    fn argmin_simd_fast(&self) -> (r: Option<usize>) {
        let len = self.len();
        if len == 0 {
            return None;
        }
        // Fold with `if a < b { a } else { b }`: a tie moves to the later
        // element, which carries the same value.
        let mut best = self[0];
        let ghost mut w: int = 0;
        let mut i: usize = 1;
        while i < len
            invariant
                1 <= i <= len,
                0 <= w < i,
                best == self@[w],
                forall|j: int| 0 <= j < i ==> best.as_int() <= (#[trigger] self@[j]).as_int(),
            decreases len - i,
        {
            if !best.lt_val(self[i]) {
                best = self[i];
                proof {
                    w = i as int;
                }
            }
            i += 1;
        }
        Some(locate_first_min(self, best))
    }
}

/// Finds the first position holding the already-computed smallest value.
pub(crate) fn locate_first_min<T: SimdElement>(v: &Vec<T>, mn: T) -> (p: usize)
    requires
        v@.contains(mn),
        forall|i: int| 0 <= i < v@.len() ==> mn.as_int() <= (#[trigger] v@[i]).as_int(),
    ensures
        p < v@.len(),
        forall|i: int| 0 <= i < v@.len() ==> v@[p as int].as_int() <= (#[trigger] v@[i]).as_int(),
        forall|j: int| 0 <= j < p ==> v@[p as int].as_int() < (#[trigger] v@[j]).as_int(),
{
    match v.position_simd(mn) {
        Some(p) => {
            proof {
                assert forall|j: int| 0 <= j < p implies v@[p as int].as_int() < (
                #[trigger] v@[j]).as_int() by {
                    T::lemma_as_int_injective(v@[j], v@[p as int]);
                }
            }
            p
        },
        None => {
            proof {
                let w = choose|i: int| 0 <= i < v@.len() && v@[i] == mn;
                assert(false);
            }
            0
        },
    }
}

} // verus!
