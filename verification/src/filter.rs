//! Vectorized filtering: per chunk, a comparison mask; a zero mask skips the
//! chunk outright, a nonzero mask is decoded through the precomputed table
//! into the ascending lane positions of the matches, whose values are
//! scattered onto the end of the output.
use crate::decode::{lemma_set_positions_props, row_ok, set_positions, MaskTable};
use crate::element::SimdElement;
use crate::mask::{
    bit_set, cmp_mask, cmp_matches, cmp_one, lemma_body_start, lemma_chunk_in_range,
    lemma_zero_mask, CmpOp,
};
use crate::position::first_match_from;
use crate::LANE_COUNT;
use vstd::prelude::*;

verus! {

/// The predicate that a filter keeps: the comparison `op` against `needle`.
pub open spec fn cmp_pred<T: SimdElement>(needle: T, op: CmpOp) -> spec_fn(T) -> bool {
    |x: T| cmp_matches(x, needle, op)
}

/// The values of `s` at the listed lane positions, in listed order.
pub open spec fn lane_values<T: SimdElement>(s: Seq<T>, ps: Seq<u8>) -> Seq<T> {
    ps.map_values(|p: u8| s[p as int])
}

/// Filtering one whole chunk keeps exactly the lane values that the mask
/// lists, in ascending lane order.
proof fn lemma_chunk_filter<T: SimdElement>(s: Seq<T>, m: u8, needle: T, op: CmpOp, upto: nat)
    requires
        s.len() == 8,
        upto <= 8,
        forall|i: u8| i < 8 ==> (bit_set(m, i) <==> cmp_matches(s[i as int], needle, op)),
    ensures
        s.take(upto as int).filter(cmp_pred(needle, op)) == lane_values(
            s,
            set_positions(m, upto),
        ),
    decreases upto,
{
    reveal(Seq::filter);
    if upto == 0 {
        assert(s.take(0).filter(cmp_pred(needle, op)) =~= lane_values(s, set_positions(m, 0)));
    } else {
        lemma_chunk_filter(s, m, needle, op, (upto - 1) as nat);
        let taken = s.take(upto as int);
        assert(taken.drop_last() =~= s.take(upto - 1));
        assert(taken.last() == s[upto - 1]);
        if bit_set(m, (upto - 1) as u8) {
            assert(cmp_pred(needle, op)(s[upto - 1]));
            assert(lane_values(s, set_positions(m, upto)) =~= lane_values(
                s,
                set_positions(m, (upto - 1) as nat),
            ).push(s[upto - 1]));
        } else {
            assert(!cmp_pred(needle, op)(s[upto - 1]));
            assert(lane_values(s, set_positions(m, upto)) =~= lane_values(
                s,
                set_positions(m, (upto - 1) as nat),
            ));
        }
    }
}

/// A sequence whose elements all satisfy the predicate passes through
/// `filter` unchanged.
proof fn lemma_filter_all_matching<T>(s: Seq<T>, pred: spec_fn(T) -> bool)
    requires
        forall|i: int| 0 <= i < s.len() ==> pred(#[trigger] s[i]),
    ensures
        s.filter(pred) == s,
    decreases s.len(),
{
    reveal(Seq::filter);
    if s.len() > 0 {
        lemma_filter_all_matching(s.drop_last(), pred);
        assert(s.drop_last().filter(pred).push(s.last()) =~= s);
    } else {
        assert(s.filter(pred) =~= s);
    }
}

/// Filtering is idempotent: applied a second time with the same needle and
/// comparison, the filter returns its own output unchanged, because every
/// element of the output already satisfies the comparison.
pub proof fn lemma_filter_simd_idempotent<T: SimdElement>(s: Seq<T>, needle: T, op: CmpOp)
    ensures
        s.filter(cmp_pred(needle, op)).filter(cmp_pred(needle, op)) == s.filter(
            cmp_pred(needle, op),
        ),
{
    let pred = cmp_pred(needle, op);
    let out = s.filter(pred);
    assert forall|i: int| 0 <= i < out.len() implies pred(#[trigger] out[i]) by {
        s.lemma_filter_pred(pred, i);
    }
    lemma_filter_all_matching(out, pred);
}

/// A cursor that yields, in order, the elements satisfying a comparison
/// against a needle, each found with the vectorized first-match scan.
pub struct SimdFilter<T: SimdElement> {
    /// The scanned sequence.
    pub arr: Vec<T>,
    /// The index at which the next scan starts.
    pub position: usize,
    /// The value compared against.
    pub needle: T,
    /// The comparison applied.
    pub op: CmpOp,
}

impl<T: SimdElement> SimdFilter<T> {
    /// A cursor over `arr` that starts at its first element.
    pub fn new(arr: Vec<T>, needle: T, op: CmpOp) -> (r: SimdFilter<T>)
        ensures
            r.arr == arr,
            r.position == 0,
            r.needle == needle,
            r.op == op,
    {
        SimdFilter { arr, position: 0, needle, op }
    }

    /// The next element at or after the cursor that satisfies the comparison;
    /// the cursor moves just past it.  `None`, with the cursor unmoved, when
    /// no matching element remains.
    pub fn next(&mut self) -> (r: Option<T>)
        ensures
            final(self).arr == old(self).arr,
            final(self).needle == old(self).needle,
            final(self).op == old(self).op,
            match r {
                Some(x) => 1 <= final(self).position <= final(self).arr@.len() && old(
                    self,
                ).position < final(self).position && x == final(self).arr@[final(self).position
                    - 1] && cmp_matches(x, final(self).needle, final(self).op) && (forall|j: int|
                    old(self).position <= j < final(self).position - 1 ==> !cmp_matches(
                        final(self).arr@[j],
                        final(self).needle,
                        final(self).op,
                    )),
                None => final(self).position == old(self).position && (forall|j: int|
                    old(self).position <= j < final(self).arr@.len() ==> !cmp_matches(
                        final(self).arr@[j],
                        final(self).needle,
                        final(self).op,
                    )),
            },
    {
        proof {
            assert(self.arr@.len() == self.arr.len());
        }
        match first_match_from(&self.arr, self.position, self.needle, self.op) {
            Some(pos) => {
                self.position = pos + 1;
                Some(self.arr[pos])
            },
            None => None,
        }
    }
}

/// Vectorized filtering by a comparison against a needle.
pub trait FilterSimd<T: SimdElement>: View<V = Seq<T>> {
    /// A new sequence holding, in their original order, exactly the elements
    /// that satisfy the comparison `op` against `needle`.  The input is left
    /// unchanged.
    fn filter_simd(&self, needle: T, op: CmpOp) -> (r: Vec<T>)
        ensures
            r@ == self@.filter(cmp_pred(needle, op)),
    ;
}

impl<T: SimdElement> FilterSimd<T> for Vec<T> {
    fn filter_simd(&self, needle: T, op: CmpOp) -> (r: Vec<T>) {
        let table = MaskTable::new();
        let len = self.len();
        let mut out: Vec<T> = Vec::new();
        let chunks = len / LANE_COUNT;
        let mut c: usize = 0;
        while c < chunks
            invariant
                c <= chunks,
                table.wf(),
                out@ == self@.take((c * 8) as int).filter(cmp_pred(needle, op)),
            decreases chunks - c,
        {
            proof {
                lemma_chunk_in_range(c as int, len as int);
            }
            let base = c * LANE_COUNT;
            let m = cmp_mask(self, base, needle, op);
            let ghost chunk = self@.subrange(base as int, base + 8 as int);
            let ghost ps = set_positions(m, 8);
            proof {
                assert forall|i: u8| i < 8 implies (bit_set(m, i) <==> cmp_matches(
                    chunk[i as int],
                    needle,
                    op,
                )) by {
                    assert(chunk[i as int] == self@[base + i]);
                }
                lemma_chunk_filter(chunk, m, needle, op, 8);
                assert(chunk.take(8) =~= chunk);
                lemma_set_positions_props(m, 8);
            }
            if m != 0 {
                let row = table.row(m);
                let mut k: usize = 0;
                while k < LANE_COUNT && row[k] < 8
                    invariant
                        k <= ps.len(),
                        out@ == self@.take((c * 8) as int).filter(cmp_pred(needle, op))
                            + lane_values(chunk, ps).take(k as int),
                    decreases 8 - k,
                {
                    let lane = row[k] as usize;
                    proof {
                        assert(row@[k as int] == ps[k as int]);
                        assert(lane_values(chunk, ps)[k as int] == chunk[lane as int]);
                        assert(chunk[lane as int] == self@[base + lane]);
                        assert(lane_values(chunk, ps).take(k + 1 as int) =~= lane_values(
                            chunk,
                            ps,
                        ).take(k as int).push(lane_values(chunk, ps)[k as int]));
                    }
                    out.push(self[base + lane]);
                    k += 1;
                }
                proof {
                    // The loop left `k` exactly at the end of the listed
                    // positions: a sentinel slot is never a position.
                    if k < 8 && k < ps.len() {
                        assert(row@[k as int] == ps[k as int]);
                        assert(false);
                    }
                    assert(k == ps.len());
                    assert(lane_values(chunk, ps).take(k as int) =~= lane_values(chunk, ps));
                }
            } else {
                proof {
                    lemma_zero_mask();
                    if ps.len() > 0 {
                        assert(bit_set(m, ps[0]));
                        assert(false);
                    }
                    assert(lane_values(chunk, ps) =~= Seq::<T>::empty());
                    assert(out@ == self@.take((c * 8) as int).filter(cmp_pred(needle, op))
                        + lane_values(chunk, ps));
                }
            }
            proof {
                assert(self@.take((c * 8 + 8) as int) =~= self@.take((c * 8) as int) + chunk);
                Seq::filter_distributes_over_add(
                    self@.take((c * 8) as int),
                    chunk,
                    cmp_pred(needle, op),
                );
            }
            c += 1;
        }
        let mut i: usize = chunks * LANE_COUNT;
        proof {
            lemma_body_start(len as int);
        }
        while i < len
            invariant
                chunks * 8 <= i <= len,
                out@ == self@.take(i as int).filter(cmp_pred(needle, op)),
            decreases len - i,
        {
            proof {
                reveal(Seq::filter);
                assert(self@.take(i + 1 as int).drop_last() =~= self@.take(i as int));
            }
            let x = self[i];
            if cmp_one(x, needle, op) {
                out.push(x);
            }
            i += 1;
        }
        proof {
            assert(self@.take(len as int) =~= self@);
        }
        out
    }
}

} // verus!
