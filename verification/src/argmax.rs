//! Position of the first occurrence of the largest element: a value reduction
//! followed by the vectorized first-match search.
use crate::element::SimdElement;
use crate::max::MaxSimd;
use crate::position::PositionSimd;
use vstd::prelude::*;

verus! {

/// Position of the first largest element.
pub trait ArgmaxSimd<T: SimdElement>: View<V = Seq<T>> {
    /// Index of the first element no smaller than any other, or `None` for
    /// the empty sequence.
    fn argmax_simd(&self) -> (r: Option<usize>)
        ensures
            match r {
                Some(p) => p < self@.len() && (forall|i: int|
                    0 <= i < self@.len() ==> (#[trigger] self@[i]).as_int() <= self@[p as int].as_int())
                    && (forall|j: int|
                    0 <= j < p ==> (#[trigger] self@[j]).as_int() < self@[p as int].as_int()),
                None => self@.len() == 0,
            },
    ;

    /// Like `argmax_simd`, but the value reduction folds pairs with `a > b`,
    /// which on these totally ordered elements returns the same index.
    fn argmax_simd_fast(&self) -> (r: Option<usize>)
        ensures
            match r {
                Some(p) => p < self@.len() && (forall|i: int|
                    0 <= i < self@.len() ==> (#[trigger] self@[i]).as_int() <= self@[p as int].as_int())
                    && (forall|j: int|
                    0 <= j < p ==> (#[trigger] self@[j]).as_int() < self@[p as int].as_int()),
                None => self@.len() == 0,
            },
    ;
}

impl<T: SimdElement> ArgmaxSimd<T> for Vec<T> {
    fn argmax_simd(&self) -> (r: Option<usize>) {
        match self.max_simd() {
            Some(mx) => Some(locate_first_max(self, mx)),
            None => None,
        }
    }

    fn argmax_simd_fast(&self) -> (r: Option<usize>) {
        let len = self.len();
        if len == 0 {
            return None;
        }
        // Fold with `if a > b { a } else { b }`: a tie moves to the later
        // element, which carries the same value.
        let mut best = self[0];
        let ghost mut w: int = 0;
        let mut i: usize = 1;
        while i < len
            invariant
                1 <= i <= len,
                0 <= w < i,
                best == self@[w],
                forall|j: int| 0 <= j < i ==> (#[trigger] self@[j]).as_int() <= best.as_int(),
            decreases len - i,
        {
            if !self[i].lt_val(best) {
                best = self[i];
                proof {
                    w = i as int;
                }
            }
            i += 1;
        }
        Some(locate_first_max(self, best))
    }
}

/// Finds the first position holding the already-computed largest value.
pub(crate) fn locate_first_max<T: SimdElement>(v: &Vec<T>, mx: T) -> (p: usize)
    requires
        v@.contains(mx),
        forall|i: int| 0 <= i < v@.len() ==> (#[trigger] v@[i]).as_int() <= mx.as_int(),
    ensures
        p < v@.len(),
        forall|i: int| 0 <= i < v@.len() ==> (#[trigger] v@[i]).as_int() <= v@[p as int].as_int(),
        forall|j: int| 0 <= j < p ==> (#[trigger] v@[j]).as_int() < v@[p as int].as_int(),
{
    match v.position_simd(mx) {
        Some(p) => {
            proof {
                assert forall|j: int| 0 <= j < p implies (#[trigger] v@[j]).as_int()
                    < v@[p as int].as_int() by {
                    T::lemma_as_int_injective(v@[j], v@[p as int]);
                }
            }
            p
        },
        None => {
            proof {
                let w = choose|i: int| 0 <= i < v@.len() && v@[i] == mx;
                assert(false);
            }
            0
        },
    }
}

} // verus!
