//! Vectorized replacements for common linear scans over flat numeric
//! sequences: containment, search, equality, all-equal, is-sorted, filtering,
//! min/max and argmin/argmax.
//!
//! Every operation splits its input into a body of chunks of exactly
//! `LANE_COUNT` elements followed by an unaligned suffix, compares a whole
//! chunk at a time, and represents each chunk comparison as a bit mask whose
//! bit `i` holds the result for lane `i`.  The mask is then decoded into a
//! boolean (any lane hit), an index (lowest set bit), or a compacted run of
//! matching lane values (via a precomputed mask-to-positions table).  Each
//! operation is proved to return exactly what the scalar linear scan returns.
#![verifier::loop_isolation(false)]
use vstd::prelude::*;

pub mod all;
pub mod all_equal;
pub mod any;
pub mod argmax;
pub mod argmin;
pub mod contains;
pub mod decode;
pub mod element;
pub mod eq;
pub mod filter;
pub mod find;
pub mod is_sorted;
pub mod mask;
pub mod max;
pub mod min;
pub mod minmax;
pub mod position;

pub use all::AllSimd;
pub use all_equal::AllEqualSimd;
pub use any::AnySimd;
pub use argmax::ArgmaxSimd;
pub use argmin::ArgminSimd;
pub use argmin::ArgminSimdFast;
pub use contains::ContainsSimd;
pub use eq::EqSimd;
pub use filter::FilterSimd;
pub use filter::SimdFilter;
pub use find::FindSimd;
pub use is_sorted::IsSortedSimd;
pub use max::MaxSimd;
pub use min::MinSimd;
pub use minmax::MinMaxSimd;
pub use position::PositionSimd;

verus! {

/// Number of lanes processed per vector comparison.  Fixed at build time;
/// masks are `u8` values, one bit per lane.
pub const LANE_COUNT: usize = 8;

} // verus!
