use vstd::prelude::*;

mod value16;
mod value32;
mod value64;

pub use value16::Value16;
pub use value32::Value32;
pub use value64::Value64;

verus! {

/// A machine word that holds either an integer or a pointer, with a mark bit
/// for the collector.
///
/// Bit 0 tells the kind (0: pointer, 1: integer), bit 1 is the mark, and the
/// remaining bits are the payload: an unsigned pointer, or a signed integer
/// read with an arithmetic shift.
pub trait Value: Sized + Copy {
    /// One more than the largest pointer payload.
    spec fn pointer_limit() -> u64;

    /// The smallest integer a value holds.
    spec fn number_min() -> i64;

    /// The largest integer a value holds.
    spec fn number_max() -> i64;

    /// Whether the value is a pointer (else it is an integer).
    spec fn is_pointer_spec(&self) -> bool;

    /// Whether the mark bit is set.
    spec fn is_marked_spec(&self) -> bool;

    /// The payload read as a pointer.
    spec fn pointer_spec(&self) -> u64;

    /// The payload read as an integer.
    spec fn number_spec(&self) -> i64;

    /// The unmarked pointer with a payload.
    spec fn from_pointer_spec(pointer: u64) -> Self;

    /// The unmarked integer with a payload.
    spec fn from_number_spec(number: i64) -> Self;

    /// The value with its mark bit set to `mark`.
    spec fn mark_spec(&self, mark: bool) -> Self;

    /// The value with its payload replaced and its two low bits kept.
    spec fn set_pointer_spec(&self, pointer: u64) -> Self;

    /// The bounds of the payloads.
    proof fn lemma_limits()
        ensures
            0x4000 <= Self::pointer_limit() <= 0x4000_0000_0000_0000,
            Self::pointer_limit() % 256 == 0,
            Self::number_min() <= -0x2000,
            Self::number_max() >= 0x1fff,
    ;

    /// Every value's payloads lie within the bounds.
    proof fn lemma_bounds(v: Self)
        ensures
            v.pointer_spec() < Self::pointer_limit(),
            Self::number_min() <= v.number_spec() <= Self::number_max(),
    ;

    /// What a pointer built from a payload holds.
    proof fn lemma_from_pointer(pointer: u64)
        ensures
            Self::from_pointer_spec(pointer).is_pointer_spec(),
            !Self::from_pointer_spec(pointer).is_marked_spec(),
            Self::from_pointer_spec(pointer).pointer_spec() == pointer % Self::pointer_limit(),
    ;

    /// What an integer built from a payload holds.
    proof fn lemma_from_number(number: i64)
        requires
            Self::number_min() <= number <= Self::number_max(),
        ensures
            !Self::from_number_spec(number).is_pointer_spec(),
            !Self::from_number_spec(number).is_marked_spec(),
            Self::from_number_spec(number).number_spec() == number,
    ;

    /// Marking sets the mark and keeps the kind and both payloads.
    proof fn lemma_mark(v: Self, mark: bool)
        ensures
            v.mark_spec(mark).is_marked_spec() == mark,
            v.mark_spec(mark).is_pointer_spec() == v.is_pointer_spec(),
            v.mark_spec(mark).pointer_spec() == v.pointer_spec(),
            v.mark_spec(mark).number_spec() == v.number_spec(),
    ;

    /// Clearing a mark that was set on an unmarked value gives the value back.
    proof fn lemma_unmark(v: Self)
        requires
            !v.is_marked_spec(),
        ensures
            v.mark_spec(true).mark_spec(false) == v,
    ;

    /// Clearing the mark of an unmarked value leaves it as it is.
    proof fn lemma_clear_unmarked(v: Self)
        requires
            !v.is_marked_spec(),
        ensures
            v.mark_spec(false) == v,
    ;

    /// Replacing the payload keeps the kind and the mark.
    proof fn lemma_set_pointer(v: Self, pointer: u64)
        ensures
            v.set_pointer_spec(pointer).is_pointer_spec() == v.is_pointer_spec(),
            v.set_pointer_spec(pointer).is_marked_spec() == v.is_marked_spec(),
            v.set_pointer_spec(pointer).pointer_spec() == pointer % Self::pointer_limit(),
    ;

    /// Two pointers with the same mark and payload are the same value.
    proof fn lemma_pointer_eq(a: Self, b: Self)
        requires
            a.is_pointer_spec(),
            b.is_pointer_spec(),
            a.is_marked_spec() == b.is_marked_spec(),
            a.pointer_spec() == b.pointer_spec(),
        ensures
            a == b,
    ;

    /// One more than the largest pointer payload.
    fn pointer_limit_exec() -> (r: u64)
        ensures
            r == Self::pointer_limit(),
    ;

    /// Converts a pointer payload to a value; high bits that do not fit are dropped.
    fn from_pointer(pointer: u64) -> (r: Self)
        ensures
            r == Self::from_pointer_spec(pointer),
            r.is_pointer_spec(),
            !r.is_marked_spec(),
            r.pointer_spec() == pointer % Self::pointer_limit(),
    ;

    /// Returns the payload read as a pointer.
    fn to_pointer(self) -> (r: u64)
        ensures
            r == self.pointer_spec(),
    ;

    /// Replaces the payload, keeping the kind and the mark.
    fn set_pointer(self, pointer: u64) -> (r: Self)
        ensures
            r == self.set_pointer_spec(pointer),
            r.is_pointer_spec() == self.is_pointer_spec(),
            r.is_marked_spec() == self.is_marked_spec(),
            r.pointer_spec() == pointer % Self::pointer_limit(),
    ;

    /// Checks if a value is a pointer.
    fn is_pointer(self) -> (r: bool)
        ensures
            r == self.is_pointer_spec(),
    ;

    /// Sets or clears the mark.
    fn mark(self, mark: bool) -> (r: Self)
        ensures
            r == self.mark_spec(mark),
            r.is_marked_spec() == mark,
            r.is_pointer_spec() == self.is_pointer_spec(),
            r.pointer_spec() == self.pointer_spec(),
            r.number_spec() == self.number_spec(),
    ;

    /// Returns `true` if a value is marked.
    fn is_marked(self) -> (r: bool)
        ensures
            r == self.is_marked_spec(),
    ;

    /// Converts an integer to a value.
    fn from_number(number: i64) -> (r: Self)
        requires
            Self::number_min() <= number <= Self::number_max(),
        ensures
            r == Self::from_number_spec(number),
            !r.is_pointer_spec(),
            !r.is_marked_spec(),
            r.number_spec() == number,
    ;

    /// Returns the payload read as an integer.
    fn to_number(self) -> (r: i64)
        ensures
            r == self.number_spec(),
    ;

    /// The integer zero: what a fresh heap holds and what ends the free list.
    fn zero() -> (r: Self)
        ensures
            r == Self::from_number_spec(0),
            !r.is_pointer_spec(),
            !r.is_marked_spec(),
            r.number_spec() == 0,
    ;
}

/// An integer that fits in the payload comes back unchanged from a value.
pub proof fn law_number_round_trip<V: Value>(n: i64)
    requires
        V::number_min() <= n <= V::number_max(),
    ensures
        V::from_number_spec(n).number_spec() == n,
{
    V::lemma_from_number(n);
}

/// An index that fits in the payload comes back unchanged from a pointer,
/// which is a pointer, while the integer of the same number is not.
pub proof fn law_pointer_round_trip<V: Value>(i: u64)
    requires
        i < V::pointer_limit(),
        i <= V::number_max(),
    ensures
        V::from_pointer_spec(i).pointer_spec() == i,
        V::from_pointer_spec(i).is_pointer_spec(),
        !V::from_number_spec(i as i64).is_pointer_spec(),
{
    V::lemma_limits();
    V::lemma_from_pointer(i);
    V::lemma_from_number(i as i64);
    vstd::arithmetic::div_mod::lemma_small_mod(i as nat, V::pointer_limit() as nat);
}

/// Clearing the mark of an unmarked value leaves it as it is, and clearing a
/// mark just set gives the value back.
pub proof fn law_clear_mark<V: Value>(v: V)
    requires
        !v.is_marked_spec(),
    ensures
        v.mark_spec(false) == v,
        v.mark_spec(true).mark_spec(false) == v,
{
    V::lemma_clear_unmarked(v);
    V::lemma_unmark(v);
}

/// Marking sets the mark as asked and keeps both payloads.
pub proof fn law_mark<V: Value>(v: V, mark: bool)
    ensures
        v.mark_spec(mark).is_marked_spec() == mark,
        v.mark_spec(mark).number_spec() == v.number_spec(),
        v.mark_spec(mark).pointer_spec() == v.pointer_spec(),
{
    V::lemma_mark(v, mark);
}

} // verus!
