use super::Value;
use vstd::prelude::*;

verus! {

/// A 16-bit value.
#[derive(Clone, Copy, Debug, Hash, PartialEq, Eq, Structural)]
pub struct Value16(u16);

impl Value for Value16 {
    open spec fn pointer_limit() -> u64 {
        0x4000
    }

    open spec fn number_min() -> i64 {
        -0x2000i64
    }

    open spec fn number_max() -> i64 {
        0x1fff
    }

    closed spec fn is_pointer_spec(&self) -> bool {
        self.0 & 1 == 0
    }

    closed spec fn is_marked_spec(&self) -> bool {
        self.0 & 2 != 0
    }

    closed spec fn pointer_spec(&self) -> u64 {
        (self.0 >> 2) as u64
    }

    closed spec fn number_spec(&self) -> i64 {
        ((self.0 as i16) >> 2) as i64
    }

    closed spec fn from_pointer_spec(pointer: u64) -> Self {
        Value16((pointer as u16) << 2)
    }

    closed spec fn from_number_spec(number: i64) -> Self {
        Value16(((number as u16) << 2) | 1)
    }

    closed spec fn mark_spec(&self, mark: bool) -> Self {
        if mark {
            Value16(self.0 | 2)
        } else {
            Value16(self.0 & !2u16)
        }
    }

    closed spec fn set_pointer_spec(&self, pointer: u64) -> Self {
        Value16((self.0 & 3) | ((pointer as u16) << 2))
    }

    proof fn lemma_limits() {
    }

    proof fn lemma_bounds(v: Self) {
        let w = v.0;
        assert(((w >> 2) as u64) < 0x4000) by (bit_vector);
        assert(-0x2000 <= (((w as i16) >> 2) as i64) <= 0x1fff) by (bit_vector);
    }

    proof fn lemma_from_pointer(pointer: u64) {
        assert((((pointer as u16) << 2) & 1 == 0) && (((pointer as u16) << 2) & 2 == 0)
            && ((((pointer as u16) << 2) >> 2) as u64 == pointer % 0x4000)) by (bit_vector);
    }

    proof fn lemma_from_number(number: i64) {
        assert(-0x2000 <= number <= 0x1fff ==> {
            let w = ((number as u16) << 2) | 1;
            &&& w & 1 != 0
            &&& w & 2 == 0
            &&& ((w as i16) >> 2) as i64 == number
        }) by (bit_vector);
    }

    proof fn lemma_mark(v: Self, mark: bool) {
        let w = v.0;
        assert({
            let m = w | 2;
            &&& m & 2 != 0
            &&& (m & 1 == 0) == (w & 1 == 0)
            &&& m >> 2 == w >> 2
            &&& (m as i16) >> 2 == (w as i16) >> 2
        }) by (bit_vector);
        assert({
            let m = w & !2u16;
            &&& m & 2 == 0
            &&& (m & 1 == 0) == (w & 1 == 0)
            &&& m >> 2 == w >> 2
            &&& (m as i16) >> 2 == (w as i16) >> 2
        }) by (bit_vector);
    }

    proof fn lemma_unmark(v: Self) {
        let w = v.0;
        assert(w & 2 == 0 ==> (w | 2) & !2u16 == w) by (bit_vector);
    }

    proof fn lemma_clear_unmarked(v: Self) {
        let w = v.0;
        assert(w & 2 == 0 ==> w & !2u16 == w) by (bit_vector);
    }

    proof fn lemma_set_pointer(v: Self, pointer: u64) {
        let w = v.0;
        assert({
            let m = (w & 3) | ((pointer as u16) << 2);
            &&& (m & 1 == 0) == (w & 1 == 0)
            &&& (m & 2 == 0) == (w & 2 == 0)
            &&& (m >> 2) as u64 == pointer % 0x4000
        }) by (bit_vector);
    }

    proof fn lemma_pointer_eq(a: Self, b: Self) {
        let x = a.0;
        let y = b.0;
        assert(x & 1 == 0 && y & 1 == 0 && (x & 2 == 0) == (y & 2 == 0) && x >> 2 == y >> 2
            ==> x == y) by (bit_vector);
    }

    fn pointer_limit_exec() -> (r: u64) {
        0x4000
    }

    fn from_pointer(pointer: u64) -> (r: Self) {
        proof {
            Self::lemma_from_pointer(pointer);
        }
        Value16((pointer as u16) << 2)
    }

    fn to_pointer(self) -> (r: u64) {
        (self.0 >> 2) as u64
    }

    fn set_pointer(self, pointer: u64) -> (r: Self) {
        proof {
            Self::lemma_set_pointer(self, pointer);
        }
        Value16((self.0 & 3) | ((pointer as u16) << 2))
    }

    fn is_pointer(self) -> (r: bool) {
        self.0 & 1 == 0
    }

    fn mark(self, mark: bool) -> (r: Self) {
        proof {
            Self::lemma_mark(self, mark);
        }
        if mark {
            Value16(self.0 | 2)
        } else {
            Value16(self.0 & !2u16)
        }
    }

    fn is_marked(self) -> (r: bool) {
        self.0 & 2 != 0
    }

    fn from_number(number: i64) -> (r: Self) {
        proof {
            Self::lemma_from_number(number);
        }
        Value16(((number as u16) << 2) | 1)
    }

    fn to_number(self) -> (r: i64) {
        ((self.0 as i16) >> 2) as i64
    }

    fn zero() -> (r: Self) {
        Self::from_number(0)
    }
}

impl Default for Value16 {
    /// The integer zero.
    fn default() -> (r: Self)
        ensures
            r == Self::from_number_spec(0),
    {
        Self::zero()
    }
}

} // verus!
