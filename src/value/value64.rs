use super::Value;
use vstd::prelude::*;

verus! {

/// A 64-bit value.
#[derive(Clone, Copy, Debug, Hash, PartialEq, Eq, Structural)]
pub struct Value64(u64);

impl Value for Value64 {
    open spec fn pointer_limit() -> u64 {
        0x4000_0000_0000_0000
    }

    open spec fn number_min() -> i64 {
        -0x2000_0000_0000_0000i64
    }

    open spec fn number_max() -> i64 {
        0x1fff_ffff_ffff_ffff
    }

    closed spec fn is_pointer_spec(&self) -> bool {
        self.0 & 1 == 0
    }

    closed spec fn is_marked_spec(&self) -> bool {
        self.0 & 2 != 0
    }

    closed spec fn pointer_spec(&self) -> u64 {
        self.0 >> 2
    }

    closed spec fn number_spec(&self) -> i64 {
        (self.0 as i64) >> 2
    }

    closed spec fn from_pointer_spec(pointer: u64) -> Self {
        Value64(pointer << 2)
    }

    closed spec fn from_number_spec(number: i64) -> Self {
        Value64(((number as u64) << 2) | 1)
    }

    closed spec fn mark_spec(&self, mark: bool) -> Self {
        if mark {
            Value64(self.0 | 2)
        } else {
            Value64(self.0 & !2u64)
        }
    }

    closed spec fn set_pointer_spec(&self, pointer: u64) -> Self {
        Value64((self.0 & 3) | (pointer << 2))
    }

    proof fn lemma_limits() {
    }

    proof fn lemma_bounds(v: Self) {
        let w = v.0;
        assert((w >> 2) < 0x4000_0000_0000_0000) by (bit_vector);
        assert(-0x2000_0000_0000_0000 <= ((w as i64) >> 2) <= 0x1fff_ffff_ffff_ffff) by (bit_vector);
    }

    proof fn lemma_from_pointer(pointer: u64) {
        assert(((pointer << 2) & 1 == 0) && ((pointer << 2) & 2 == 0)
            && ((pointer << 2) >> 2 == pointer % 0x4000_0000_0000_0000)) by (bit_vector);
    }

    proof fn lemma_from_number(number: i64) {
        assert(-0x2000_0000_0000_0000 <= number <= 0x1fff_ffff_ffff_ffff ==> {
            let w = ((number as u64) << 2) | 1;
            &&& w & 1 != 0
            &&& w & 2 == 0
            &&& (w as i64) >> 2 == number
        }) by (bit_vector);
    }

    proof fn lemma_mark(v: Self, mark: bool) {
        let w = v.0;
        assert({
            let m = w | 2;
            &&& m & 2 != 0
            &&& (m & 1 == 0) == (w & 1 == 0)
            &&& m >> 2 == w >> 2
            &&& (m as i64) >> 2 == (w as i64) >> 2
        }) by (bit_vector);
        assert({
            let m = w & !2u64;
            &&& m & 2 == 0
            &&& (m & 1 == 0) == (w & 1 == 0)
            &&& m >> 2 == w >> 2
            &&& (m as i64) >> 2 == (w as i64) >> 2
        }) by (bit_vector);
    }

    proof fn lemma_unmark(v: Self) {
        let w = v.0;
        assert(w & 2 == 0 ==> (w | 2) & !2u64 == w) by (bit_vector);
    }

    proof fn lemma_clear_unmarked(v: Self) {
        let w = v.0;
        assert(w & 2 == 0 ==> w & !2u64 == w) by (bit_vector);
    }

    proof fn lemma_set_pointer(v: Self, pointer: u64) {
        let w = v.0;
        assert({
            let m = (w & 3) | (pointer << 2);
            &&& (m & 1 == 0) == (w & 1 == 0)
            &&& (m & 2 == 0) == (w & 2 == 0)
            &&& m >> 2 == pointer % 0x4000_0000_0000_0000
        }) by (bit_vector);
    }

    proof fn lemma_pointer_eq(a: Self, b: Self) {
        let x = a.0;
        let y = b.0;
        assert(x & 1 == 0 && y & 1 == 0 && (x & 2 == 0) == (y & 2 == 0) && x >> 2 == y >> 2
            ==> x == y) by (bit_vector);
    }

    fn pointer_limit_exec() -> (r: u64) {
        0x4000_0000_0000_0000
    }

    fn from_pointer(pointer: u64) -> (r: Self) {
        proof {
            Self::lemma_from_pointer(pointer);
        }
        Value64(pointer << 2)
    }

    fn to_pointer(self) -> (r: u64) {
        self.0 >> 2
    }

    fn set_pointer(self, pointer: u64) -> (r: Self) {
        proof {
            Self::lemma_set_pointer(self, pointer);
        }
        Value64((self.0 & 3) | (pointer << 2))
    }

    fn is_pointer(self) -> (r: bool) {
        self.0 & 1 == 0
    }

    fn mark(self, mark: bool) -> (r: Self) {
        proof {
            Self::lemma_mark(self, mark);
        }
        if mark {
            Value64(self.0 | 2)
        } else {
            Value64(self.0 & !2u64)
        }
    }

    fn is_marked(self) -> (r: bool) {
        self.0 & 2 != 0
    }

    fn from_number(number: i64) -> (r: Self) {
        proof {
            Self::lemma_from_number(number);
        }
        Value64(((number as u64) << 2) | 1)
    }

    fn to_number(self) -> (r: i64) {
        (self.0 as i64) >> 2
    }

    fn zero() -> (r: Self) {
        Self::from_number(0)
    }
}

impl Default for Value64 {
    /// The integer zero.
    fn default() -> (r: Self)
        ensures
            r == Self::from_number_spec(0),
    {
        Self::zero()
    }
}

} // verus!
