//! The closed set of element types that the vectorized scans support: the
//! fixed-width integer types, each modeled in specifications by its
//! mathematical value.
use vstd::prelude::*;

verus! {

/// An element of a scannable sequence.  `as_int` gives the mathematical value
/// of the element; the executable comparisons decide equality and order of
/// those values.
pub trait SimdElement: Sized + Copy {
    /// Mathematical value of the element.
    spec fn as_int(self) -> int;

    /// Distinct elements have distinct values.
    proof fn lemma_as_int_injective(a: Self, b: Self)
        ensures
            a.as_int() == b.as_int() ==> a == b,
    ;

    /// Decides equality of elements.
    fn eq_val(self, other: Self) -> (r: bool)
        ensures
            r == (self == other),
    ;

    /// Decides `<=` on the values.
    fn le_val(self, other: Self) -> (r: bool)
        ensures
            r == (self.as_int() <= other.as_int()),
    ;

    /// Decides `<` on the values.
    fn lt_val(self, other: Self) -> (r: bool)
        ensures
            r == (self.as_int() < other.as_int()),
    ;
}

impl SimdElement for u8 {
    open spec fn as_int(self) -> int {
        self as int
    }

    proof fn lemma_as_int_injective(a: u8, b: u8) {
    }

    fn eq_val(self, other: u8) -> (r: bool) {
        self == other
    }

    fn le_val(self, other: u8) -> (r: bool) {
        self <= other
    }

    fn lt_val(self, other: u8) -> (r: bool) {
        self < other
    }
}

impl SimdElement for u16 {
    open spec fn as_int(self) -> int {
        self as int
    }

    proof fn lemma_as_int_injective(a: u16, b: u16) {
    }

    fn eq_val(self, other: u16) -> (r: bool) {
        self == other
    }

    fn le_val(self, other: u16) -> (r: bool) {
        self <= other
    }

    fn lt_val(self, other: u16) -> (r: bool) {
        self < other
    }
}

impl SimdElement for u32 {
    open spec fn as_int(self) -> int {
        self as int
    }

    proof fn lemma_as_int_injective(a: u32, b: u32) {
    }

    fn eq_val(self, other: u32) -> (r: bool) {
        self == other
    }

    fn le_val(self, other: u32) -> (r: bool) {
        self <= other
    }

    fn lt_val(self, other: u32) -> (r: bool) {
        self < other
    }
}

impl SimdElement for u64 {
    open spec fn as_int(self) -> int {
        self as int
    }

    proof fn lemma_as_int_injective(a: u64, b: u64) {
    }

    fn eq_val(self, other: u64) -> (r: bool) {
        self == other
    }

    fn le_val(self, other: u64) -> (r: bool) {
        self <= other
    }

    fn lt_val(self, other: u64) -> (r: bool) {
        self < other
    }
}

impl SimdElement for usize {
    open spec fn as_int(self) -> int {
        self as int
    }

    proof fn lemma_as_int_injective(a: usize, b: usize) {
    }

    fn eq_val(self, other: usize) -> (r: bool) {
        self == other
    }

    fn le_val(self, other: usize) -> (r: bool) {
        self <= other
    }

    fn lt_val(self, other: usize) -> (r: bool) {
        self < other
    }
}

impl SimdElement for i8 {
    open spec fn as_int(self) -> int {
        self as int
    }

    proof fn lemma_as_int_injective(a: i8, b: i8) {
    }

    fn eq_val(self, other: i8) -> (r: bool) {
        self == other
    }

    fn le_val(self, other: i8) -> (r: bool) {
        self <= other
    }

    fn lt_val(self, other: i8) -> (r: bool) {
        self < other
    }
}

impl SimdElement for i16 {
    open spec fn as_int(self) -> int {
        self as int
    }

    proof fn lemma_as_int_injective(a: i16, b: i16) {
    }

    fn eq_val(self, other: i16) -> (r: bool) {
        self == other
    }

    fn le_val(self, other: i16) -> (r: bool) {
        self <= other
    }

    fn lt_val(self, other: i16) -> (r: bool) {
        self < other
    }
}

impl SimdElement for i32 {
    open spec fn as_int(self) -> int {
        self as int
    }

    proof fn lemma_as_int_injective(a: i32, b: i32) {
    }

    fn eq_val(self, other: i32) -> (r: bool) {
        self == other
    }

    fn le_val(self, other: i32) -> (r: bool) {
        self <= other
    }

    fn lt_val(self, other: i32) -> (r: bool) {
        self < other
    }
}

impl SimdElement for i64 {
    open spec fn as_int(self) -> int {
        self as int
    }

    proof fn lemma_as_int_injective(a: i64, b: i64) {
    }

    fn eq_val(self, other: i64) -> (r: bool) {
        self == other
    }

    fn le_val(self, other: i64) -> (r: bool) {
        self <= other
    }

    fn lt_val(self, other: i64) -> (r: bool) {
        self < other
    }
}

impl SimdElement for isize {
    open spec fn as_int(self) -> int {
        self as int
    }

    proof fn lemma_as_int_injective(a: isize, b: isize) {
    }

    fn eq_val(self, other: isize) -> (r: bool) {
        self == other
    }

    fn le_val(self, other: isize) -> (r: bool) {
        self <= other
    }

    fn lt_val(self, other: isize) -> (r: bool) {
        self < other
    }
}

} // verus!
