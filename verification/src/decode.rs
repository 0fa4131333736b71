//! The bitmask decode table: a precomputed mapping from each possible 8-bit
//! comparison mask to the ascending positions of its set bits, padded to a
//! fixed width with an out-of-range sentinel.  Filtering uses it to scatter
//! the matching lanes of a chunk into the output without testing each lane.
use crate::mask::bit_set;
use vstd::prelude::*;

verus! {

/// The ascending positions below `upto` of the set bits of `m`.
pub open spec fn set_positions(m: u8, upto: nat) -> Seq<u8>
    decreases upto,
{
    if upto == 0 {
        Seq::empty()
    } else {
        let prev = set_positions(m, (upto - 1) as nat);
        if bit_set(m, (upto - 1) as u8) {
            prev.push((upto - 1) as u8)
        } else {
            prev
        }
    }
}

/// There are at most `upto` listed positions, and every one lies below `upto`
/// and has its bit set.
pub proof fn lemma_set_positions_props(m: u8, upto: nat)
    ensures
        set_positions(m, upto).len() <= upto,
        forall|k: int|
            0 <= k < set_positions(m, upto).len() ==> (#[trigger] set_positions(m, upto)[k]) < upto
                && bit_set(m, set_positions(m, upto)[k]),
    decreases upto,
{
    if upto > 0 {
        lemma_set_positions_props(m, (upto - 1) as nat);
    }
}

/// One table row for the mask `m`: eight slots, the ascending set-bit
/// positions first, the out-of-range sentinel in the unused trailing slots.
pub open spec fn row_ok(row: Seq<u8>, m: u8) -> bool {
    let ps = set_positions(m, 8);
    &&& row.len() == 8
    &&& (forall|k: int| 0 <= k < ps.len() ==> row[k] == ps[k])
    &&& (forall|k: int| ps.len() <= k < 8 ==> row[k] == 8)
}

/// The mask-to-positions decode table: one row for each of the 256 masks.
pub struct MaskTable {
    rows: Vec<Vec<u8>>,
}

impl MaskTable {
    /// Every mask has its well-formed row.
    pub closed spec fn wf(&self) -> bool {
        &&& self.rows@.len() == 256
        &&& (forall|m: int| 0 <= m < 256 ==> row_ok((#[trigger] self.rows@[m])@, m as u8))
    }

    /// Builds the table: for each mask, collect the set-bit positions in
    /// ascending order, then pad with the sentinel.
    pub fn new() -> (t: MaskTable)
        ensures
            t.wf(),
    {
        let mut rows: Vec<Vec<u8>> = Vec::new();
        let mut m: usize = 0;
        while m < 256
            invariant
                m <= 256,
                rows@.len() == m,
                forall|q: int| 0 <= q < m ==> row_ok((#[trigger] rows@[q])@, q as u8),
            decreases 256 - m,
        {
            let mut row: Vec<u8> = Vec::new();
            let mut i: usize = 0;
            while i < 8
                invariant
                    i <= 8,
                    m < 256,
                    row@ == set_positions(m as u8, i as nat),
                decreases 8 - i,
            {
                if ((m as u8) >> (i as u8)) & 1u8 == 1u8 {
                    row.push(i as u8);
                }
                i += 1;
            }
            proof {
                lemma_set_positions_props(m as u8, 8);
            }
            while row.len() < 8
                invariant
                    set_positions(m as u8, 8).len() <= row@.len() <= 8,
                    forall|k: int|
                        0 <= k < set_positions(m as u8, 8).len() ==> row@[k] == set_positions(
                            m as u8,
                            8,
                        )[k],
                    forall|k: int| set_positions(m as u8, 8).len() <= k < row@.len() ==> row@[k] == 8,
                decreases 8 - row@.len(),
            {
                row.push(8u8);
            }
            rows.push(row);
            m += 1;
        }
        MaskTable { rows }
    }

    /// The decoded row for the mask `m`.
    pub fn row(&self, m: u8) -> (r: &Vec<u8>)
        requires
            self.wf(),
        ensures
            row_ok(r@, m),
    {
        &self.rows[m as usize]
    }
}

} // verus!
