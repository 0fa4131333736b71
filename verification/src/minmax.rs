//! Smallest and largest element in one pass, and the positions of their first
//! occurrences via the vectorized first-match search.
use crate::argmax::locate_first_max;
use crate::argmin::locate_first_min;
use crate::element::SimdElement;
use vstd::prelude::*;

verus! {

/// Smallest and largest element of a sequence, folded in a single pass.
pub trait MinMaxSimd<T: SimdElement>: View<V = Seq<T>> {
    /// The pair `(smallest, largest)`, or `None` for the empty sequence.  A
    /// one-element sequence gives that element twice.
    fn minmax_simd(&self) -> (r: Option<(T, T)>)
        ensures
            match r {
                Some(p) => self@.contains(p.0) && self@.contains(p.1) && (forall|i: int|
                    0 <= i < self@.len() ==> p.0.as_int() <= (#[trigger] self@[i]).as_int())
                    && (forall|i: int|
                    0 <= i < self@.len() ==> (#[trigger] self@[i]).as_int() <= p.1.as_int()),
                None => self@.len() == 0,
            },
    ;

    /// The positions of the first occurrence of the smallest and of the
    /// largest element, or `None` for the empty sequence.
    fn minmax_position_simd(&self) -> (r: Option<(usize, usize)>)
        ensures
            match r {
                Some(p) => p.0 < self@.len() && p.1 < self@.len() && (forall|i: int|
                    0 <= i < self@.len() ==> self@[p.0 as int].as_int() <= (
                    #[trigger] self@[i]).as_int()) && (forall|j: int|
                    0 <= j < p.0 ==> self@[p.0 as int].as_int() < (#[trigger] self@[j]).as_int())
                    && (forall|i: int|
                    0 <= i < self@.len() ==> (#[trigger] self@[i]).as_int() <= self@[p.1 as int].as_int())
                    && (forall|j: int|
                    0 <= j < p.1 ==> (#[trigger] self@[j]).as_int() < self@[p.1 as int].as_int()),
                None => self@.len() == 0,
            },
    ;
}

impl<T: SimdElement> MinMaxSimd<T> for Vec<T> {
    fn minmax_simd(&self) -> (r: Option<(T, T)>) {
        let len = self.len();
        if len == 0 {
            return None;
        }
        let mut smallest = self[0];
        let mut largest = self[0];
        let ghost mut ws: int = 0;
        let ghost mut wl: int = 0;
        let mut i: usize = 1;
        while i < len
            invariant
                1 <= i <= len,
                0 <= ws < i,
                0 <= wl < i,
                smallest == self@[ws],
                largest == self@[wl],
                forall|j: int| 0 <= j < i ==> smallest.as_int() <= (#[trigger] self@[j]).as_int(),
                forall|j: int| 0 <= j < i ==> (#[trigger] self@[j]).as_int() <= largest.as_int(),
            decreases len - i,
        {
            if self[i].lt_val(smallest) {
                smallest = self[i];
                proof {
                    ws = i as int;
                }
            }
            if largest.lt_val(self[i]) {
                largest = self[i];
                proof {
                    wl = i as int;
                }
            }
            i += 1;
        }
        Some((smallest, largest))
    }

    fn minmax_position_simd(&self) -> (r: Option<(usize, usize)>) {
        match self.minmax_simd() {
            Some((mn, mx)) => Some(
                (locate_first_min(self, mn), locate_first_max(self, mx)),
            ),
            None => None,
        }
    }
}

} // verus!
