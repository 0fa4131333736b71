//! Largest element of a sequence, as a linear reduction over the values.
use crate::element::SimdElement;
use vstd::prelude::*;

verus! {

/// Largest element of a sequence.
pub trait MaxSimd<T: SimdElement>: View<V = Seq<T>> {
    /// The largest element, or `None` for the empty sequence.
    fn max_simd(&self) -> (r: Option<T>)
        ensures
            match r {
                Some(m) => self@.contains(m) && (forall|i: int|
                    0 <= i < self@.len() ==> (#[trigger] self@[i]).as_int() <= m.as_int()),
                None => self@.len() == 0,
            },
    ;
}

impl<T: SimdElement> MaxSimd<T> for Vec<T> {
    fn max_simd(&self) -> (r: Option<T>) {
        let len = self.len();
        if len == 0 {
            return None;
        }
        let mut best = self[0];
        let ghost mut w: int = 0;
        let mut i: usize = 1;
        while i < len
            invariant
                1 <= i <= len,
                0 <= w < i,
                best == self@[w],
                forall|j: int| 0 <= j < i ==> (#[trigger] self@[j]).as_int() <= best.as_int(),
            decreases len - i,
        {
            if best.lt_val(self[i]) {
                best = self[i];
                proof {
                    w = i as int;
                }
            }
            i += 1;
        }
        Some(best)
    }
}

} // verus!
