//! Vectorized `find`: the first-match search of `position_simd` followed by a
//! lookup of the element it points at.
use crate::element::SimdElement;
use crate::position::PositionSimd;
use vstd::prelude::*;

verus! {

/// Vectorized `find`: the first element equal to a needle, by value.
pub trait FindSimd<T: SimdElement>: View<V = Seq<T>> {
    /// The first element equal to `needle`, or `None` if no element equals it.
    fn find_simd(&self, needle: T) -> (r: Option<T>)
        ensures
            match r {
                Some(x) => x == needle && self@.contains(needle),
                None => !self@.contains(needle),
            },
    ;
}

impl<T: SimdElement> FindSimd<T> for Vec<T> {
    fn find_simd(&self, needle: T) -> (r: Option<T>) {
        match self.position_simd(needle) {
            Some(idx) => Some(self[idx]),
            None => {
                proof {
                    if self@.contains(needle) {
                        let w = choose|j: int| 0 <= j < self@.len() && self@[j] == needle;
                        assert(false);
                    }
                }
                None
            },
        }
    }
}

} // verus!
