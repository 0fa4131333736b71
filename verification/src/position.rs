//! Vectorized first-match search: scan whole chunks, and on the first nonzero
//! comparison mask decode its lowest set bit into the global index.
use crate::element::SimdElement;
use crate::mask::{
    bit_set, cmp_mask, cmp_matches, cmp_one, first_set_bit, lemma_body_start,
    lemma_chunk_in_range, CmpOp,
};
use crate::LANE_COUNT;
use vstd::prelude::*;

verus! {

/// Vectorized `position`: index of the first occurrence of a needle.
pub trait PositionSimd<T: SimdElement>: View<V = Seq<T>> {
    /// Index of the first element equal to `needle`, or `None` if no element
    /// equals it.
    fn position_simd(&self, needle: T) -> (r: Option<usize>)
        ensures
            match r {
                Some(p) => p < self@.len() && self@[p as int] == needle && (forall|j: int|
                    0 <= j < p ==> self@[j] != needle),
                None => forall|j: int| 0 <= j < self@.len() ==> self@[j] != needle,
            },
    ;
}

impl<T: SimdElement> PositionSimd<T> for Vec<T> {
    fn position_simd(&self, needle: T) -> (r: Option<usize>) {
        first_match_from(self, 0, needle, CmpOp::Eq)
    }
}

/// The first index at or after `start` whose element satisfies the comparison
/// `op` against `needle`: whole chunks are compared from `start` on, the
/// first nonzero mask is decoded by its lowest set bit, and the unaligned
/// suffix is scanned directly.
pub(crate) fn first_match_from<T: SimdElement>(
    v: &Vec<T>,
    start: usize,
    needle: T,
    op: CmpOp,
) -> (r: Option<usize>)
    ensures
        match r {
            Some(p) => start <= p < v@.len() && cmp_matches(v@[p as int], needle, op) && (forall|
                j: int,
            |
                start <= j < p ==> !cmp_matches(v@[j], needle, op)),
            None => forall|j: int| start <= j < v@.len() ==> !cmp_matches(v@[j], needle, op),
        },
{
    let len = v.len();
    if start >= len {
        return None;
    }
    let n = len - start;
    let chunks = n / LANE_COUNT;
    let mut c: usize = 0;
    while c < chunks
        invariant
            c <= chunks,
            forall|j: int| start <= j < start + c * 8 ==> !cmp_matches(v@[j], needle, op),
        decreases chunks - c,
    {
        proof {
            lemma_chunk_in_range(c as int, n as int);
        }
        let base = start + c * LANE_COUNT;
        let m = cmp_mask(v, base, needle, op);
        if m != 0 {
            let lane = first_set_bit(m);
            proof {
                assert(cmp_matches(v@[base + lane], needle, op));
                assert forall|j: int| start <= j < base + lane implies !cmp_matches(
                    v@[j],
                    needle,
                    op,
                ) by {
                    if base <= j {
                        let jj = (j - base) as u8;
                        assert(!bit_set(m, jj));
                        assert(!cmp_matches(v@[base + jj], needle, op));
                    }
                }
            }
            return Some(base + lane);
        }
        c += 1;
    }
    let mut i: usize = start + chunks * LANE_COUNT;
    proof {
        lemma_body_start(n as int);
    }
    while i < len
        invariant
            start + chunks * 8 <= i <= len,
            forall|j: int| start <= j < i ==> !cmp_matches(v@[j], needle, op),
        decreases len - i,
    {
        if cmp_one(v[i], needle, op) {
            return Some(i);
        }
        i += 1;
    }
    None
}

} // verus!
