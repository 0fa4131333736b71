//! The chunked-scan core shared by every operation: elementwise comparison of
//! one lane-wide chunk at a time, the result held as a bit mask (bit `i` is
//! lane `i`), and decoding of a mask into a boolean or into the index of its
//! lowest set bit.
use crate::element::SimdElement;
use crate::LANE_COUNT;
use vstd::prelude::*;

verus! {

broadcast use vstd::std_specs::bits::axiom_u8_trailing_zeros;

/// The comparison a scan applies between an element and the needle.
#[derive(Clone, Copy, Debug)]
pub enum CmpOp {
    Lt,
    Gt,
    Eq,
}

/// Whether `x` satisfies the comparison `op` against `needle`.
pub open spec fn cmp_matches<T: SimdElement>(x: T, needle: T, op: CmpOp) -> bool {
    match op {
        CmpOp::Lt => x.as_int() < needle.as_int(),
        CmpOp::Gt => x.as_int() > needle.as_int(),
        CmpOp::Eq => x == needle,
    }
}

/// Whether bit `i` of the mask `m` is set.
pub open spec fn bit_set(m: u8, i: u8) -> bool {
    (m >> i) & 1u8 == 1u8
}

/// Setting bit `k` leaves every other bit as it was.
proof fn lemma_set_bit(m: u8, k: u8)
    by (bit_vector)
    requires
        k < 8,
    ensures
        forall|i: u8| i < 8 ==> (bit_set(m | (1u8 << k), i) <==> (bit_set(m, i) || i == k)),
        m | (1u8 << k) != 0,
{
}

/// The zero mask has no set bit.
pub(crate) proof fn lemma_zero_mask()
    by (bit_vector)
    ensures
        forall|i: u8| !bit_set(0u8, i),
{
}

/// Scalar comparison of one element against the needle, used for the
/// unaligned suffix of a scan.
pub(crate) fn cmp_one<T: SimdElement>(x: T, needle: T, op: CmpOp) -> (r: bool)
    ensures
        r == cmp_matches(x, needle, op),
{
    match op {
        CmpOp::Lt => x.lt_val(needle),
        CmpOp::Gt => needle.lt_val(x),
        CmpOp::Eq => x.eq_val(needle),
    }
}

/// Elementwise comparison of the chunk of `LANE_COUNT` elements of `v`
/// starting at `base` against the broadcast needle, returned as a bit mask:
/// bit `i` holds lane `i`'s result.
pub(crate) fn cmp_mask<T: SimdElement>(v: &Vec<T>, base: usize, needle: T, op: CmpOp) -> (m: u8)
    requires
        base + LANE_COUNT <= v.len(),
    ensures
        forall|i: u8| i < 8 ==> (bit_set(m, i) <==> cmp_matches(v@[base + i], needle, op)),
        (m == 0) <==> (forall|i: int| base <= i < base + 8 ==> !cmp_matches(v@[i], needle, op)),
{
    let mut m: u8 = 0;
    let mut k: usize = 0;
    proof {
        lemma_zero_mask();
    }
    while k < LANE_COUNT
        invariant
            base + 8 <= v.len(),
            k <= 8,
            forall|i: u8|
                i < 8 ==> (bit_set(m, i) <==> (i < k && cmp_matches(v@[base + i], needle, op))),
            (m == 0) <==> (forall|i: int| base <= i < base + k ==> !cmp_matches(v@[i], needle, op)),
        decreases 8 - k,
    {
        let x = v[base + k];
        let hit = cmp_one(x, needle, op);
        if hit {
            let m2 = m | (1u8 << (k as u8));
            proof {
                lemma_set_bit(m, k as u8);
                assert(forall|i: u8|
                    i < 8 ==> (bit_set(m2, i) <==> (bit_set(m, i) || i == k as u8)));
                assert forall|i: u8|
                    i < 8 implies (bit_set(m2, i) <==> (i < k + 1 && cmp_matches(
                    v@[base + i],
                    needle,
                    op,
                ))) by {
                    if i == k as u8 {
                        assert(cmp_matches(v@[base + i], needle, op));
                    }
                }
            }
            m = m2;
        }
        k += 1;
    }
    m
}

/// Elementwise inequality of the chunks of `a` and `b` starting at `base`:
/// the mask is zero exactly when the chunks agree lane for lane.
pub(crate) fn ne_mask<T: SimdElement>(a: &Vec<T>, b: &Vec<T>, base: usize) -> (m: u8)
    requires
        base + LANE_COUNT <= a.len(),
        base + LANE_COUNT <= b.len(),
    ensures
        (m == 0) <==> (forall|i: int| base <= i < base + 8 ==> a@[i] == b@[i]),
{
    let mut m: u8 = 0;
    let mut k: usize = 0;
    while k < LANE_COUNT
        invariant
            base + 8 <= a.len(),
            base + 8 <= b.len(),
            k <= 8,
            (m == 0) <==> (forall|i: int| base <= i < base + k ==> a@[i] == b@[i]),
        decreases 8 - k,
    {
        if !a[base + k].eq_val(b[base + k]) {
            proof {
                lemma_set_bit(m, k as u8);
            }
            m = m | (1u8 << (k as u8));
        }
        k += 1;
    }
    m
}

/// Elementwise inequality of the chunk of `v` starting at `base` against the
/// broadcast value `needle`: the mask is zero exactly when every lane equals
/// the value.
pub(crate) fn ne_broadcast_mask<T: SimdElement>(v: &Vec<T>, base: usize, needle: T) -> (m: u8)
    requires
        base + LANE_COUNT <= v.len(),
    ensures
        (m == 0) <==> (forall|i: int| base <= i < base + 8 ==> v@[i] == needle),
{
    let mut m: u8 = 0;
    let mut k: usize = 0;
    while k < LANE_COUNT
        invariant
            base + 8 <= v.len(),
            k <= 8,
            (m == 0) <==> (forall|i: int| base <= i < base + k ==> v@[i] == needle),
        decreases 8 - k,
    {
        if !v[base + k].eq_val(needle) {
            proof {
                lemma_set_bit(m, k as u8);
            }
            m = m | (1u8 << (k as u8));
        }
        k += 1;
    }
    m
}

/// Comparison of the chunk starting at `base` against the same chunk shifted
/// by one element: bit `i` is set exactly when the adjacent pair at `base + i`
/// descends.  A zero mask means the chunk's eight adjacent pairs are all
/// ascending.
pub(crate) fn adjacent_gt_mask<T: SimdElement>(v: &Vec<T>, base: usize) -> (m: u8)
    requires
        base + LANE_COUNT + 1 <= v.len(),
    ensures
        (m == 0) <==> (forall|i: int|
            base <= i < base + 8 ==> (#[trigger] v@[i]).as_int() <= v@[i + 1].as_int()),
{
    let mut m: u8 = 0;
    let mut k: usize = 0;
    while k < LANE_COUNT
        invariant
            base + 9 <= v.len(),
            k <= 8,
            (m == 0) <==> (forall|i: int|
                base <= i < base + k ==> (#[trigger] v@[i]).as_int() <= v@[i + 1].as_int()),
        decreases 8 - k,
    {
        if v[base + k + 1].lt_val(v[base + k]) {
            proof {
                lemma_set_bit(m, k as u8);
            }
            m = m | (1u8 << (k as u8));
        }
        k += 1;
    }
    m
}

/// Decodes a nonzero mask into the index of its lowest set bit, the lane of
/// the first match within the chunk.
pub(crate) fn first_set_bit(m: u8) -> (i: usize)
    requires
        m != 0,
    ensures
        i < 8,
        bit_set(m, i as u8),
        forall|j: u8| j < i ==> !bit_set(m, j),
{
    m.trailing_zeros() as usize
}

/// The chunked body of a scan covers at most the whole sequence.
pub(crate) proof fn lemma_body_start(len: int)
    requires
        0 <= len,
    ensures
        (len / 8) * 8 <= len,
{
    assert((len / 8) * 8 <= len) by (nonlinear_arith)
        requires
            0 <= len,
    ;
}

/// A chunk index below `len / 8` addresses eight elements that all lie below
/// `len`.
pub(crate) proof fn lemma_chunk_in_range(c: int, len: int)
    requires
        0 <= c,
        c < len / 8,
    ensures
        c * 8 + 8 <= len,
{
    assert(c * 8 + 8 <= len) by (nonlinear_arith)
        requires
            0 <= c,
            c < len / 8,
    ;
}

} // verus!
