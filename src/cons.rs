use crate::value::Value;
use vstd::prelude::*;

verus! {

/// A tag: the low byte of a cell pointer's payload.
pub type Tag = u8;

/// A pointer to a heap slot that carries a tag.
///
/// The pointer payload holds the slot index above the eight bits of the tag.
#[derive(Clone, Copy, Debug)]
pub struct Cons<V>(V);

impl<V: Value> View for Cons<V> {
    type V = V;

    closed spec fn view(&self) -> V {
        self.0
    }
}

/// How many slot indices a cell pointer of values `V` can hold.
pub open spec fn index_limit<V: Value>() -> nat {
    V::pointer_limit() as nat / 256
}

/// The slot index that a pointer value designates, as a `usize` holds it.
pub open spec fn slot_of<V: Value>(v: V) -> nat {
    ((v.pointer_spec() / 256) as usize) as nat
}

/// The tag that a pointer value carries.
pub open spec fn tag_of<V: Value>(v: V) -> nat {
    v.pointer_spec() as nat % 256
}

/// The unmarked, untagged pointer value to a slot.
pub open spec fn pointer_to<V: Value>(index: nat) -> V {
    V::from_pointer_spec((index * 256) as u64)
}

/// The facts about `pointer_to` that callers use.
pub proof fn lemma_pointer_to<V: Value>(index: nat)
    requires
        index < index_limit::<V>(),
        index <= usize::MAX,
    ensures
        pointer_to::<V>(index).is_pointer_spec(),
        !pointer_to::<V>(index).is_marked_spec(),
        slot_of(pointer_to::<V>(index)) == index,
        tag_of(pointer_to::<V>(index)) == 0,
{
    V::lemma_limits();
    let limit = V::pointer_limit() as nat;
    assert(index * 256 < limit) by (nonlinear_arith)
        requires
            index < limit / 256,
            limit % 256 == 0,
    ;
    vstd::arithmetic::div_mod::lemma_small_mod(index * 256, limit);
    V::lemma_from_pointer((index * 256) as u64);
}

/// Facts on the arithmetic of a payload that is split into an index and a tag.
proof fn lemma_split(p: u64, i: u64, t: u64)
    requires
        i < 0x40_0000_0000_0000,
        t < 256,
    ensures
        (p & 0xff) | (i << 8) == i * 256 + p % 256,
        (p & !0xffu64) | t == p - p % 256 + t,
        i << 8 == i * 256,
        p as u8 == p % 256,
{
    assert(i < 0x40_0000_0000_0000 ==> (p & 0xff) | (i << 8) == i * 256 + p % 256) by (bit_vector);
    assert(t < 256 ==> (p & !0xffu64) | t == p - p % 256 + t) by (bit_vector);
    assert(i < 0x40_0000_0000_0000 ==> i << 8 == i * 256) by (bit_vector);
    assert(p as u8 == p % 256) by (bit_vector);
}

impl<V: Value> Cons<V> {
    /// The slot index.
    pub open spec fn index_spec(self) -> usize {
        slot_of(self@) as usize
    }

    /// The tag.
    pub open spec fn tag_spec(self) -> Tag {
        tag_of(self@) as u8
    }

    /// Reduces an index to one that a pointer holds.
    fn fit(index: usize) -> (r: u64)
        ensures
            r as nat == index as nat % index_limit::<V>(),
            (r as nat) < index_limit::<V>(),
            r <= index,
            r < 0x40_0000_0000_0000,
    {
        proof {
            V::lemma_limits();
        }
        let limit = V::pointer_limit_exec() / 256;
        let r = index as u64 % limit;
        assert(r < limit && r <= index as u64) by (nonlinear_arith)
            requires
                limit > 0,
                r == index as u64 % limit,
        ;
        r
    }

    /// Creates an untagged pointer to a slot; high bits of an index too large
    /// for the payload are dropped.
    pub fn new(index: usize) -> (r: Self)
        ensures
            r@ == pointer_to::<V>(index as nat % index_limit::<V>()),
            r@.is_pointer_spec(),
            !r@.is_marked_spec(),
            slot_of(r@) == index as nat % index_limit::<V>(),
            tag_of(r@) == 0,
    {
        let i = Self::fit(index);
        proof {
            lemma_split(0, i, 0);
            lemma_pointer_to::<V>(i as nat);
        }
        Cons(V::from_pointer(i << 8))
    }

    /// Returns the slot index.
    pub fn index(self) -> (r: usize)
        ensures
            r == self.index_spec(),
    {
        let p = self.0.to_pointer();
        assert(p >> 8 == p / 256) by (bit_vector);
        #[verifier::truncate]
        ((p >> 8) as usize)
    }

    /// Returns the tag.
    pub fn tag(self) -> (r: Tag)
        ensures
            r == self.tag_spec(),
    {
        proof {
            lemma_split(self.0.pointer_spec(), 0, 0);
        }
        self.0.to_pointer() as u8
    }

    /// Replaces the slot index, keeping the tag; high bits of an index too
    /// large for the payload are dropped.
    pub fn set_index(self, index: usize) -> (r: Self)
        ensures
            r@.is_pointer_spec() == self@.is_pointer_spec(),
            r@.is_marked_spec() == self@.is_marked_spec(),
            slot_of(r@) == index as nat % index_limit::<V>(),
            tag_of(r@) == tag_of(self@),
            r@.pointer_spec() == (index as nat % index_limit::<V>()) * 256 + tag_of(self@),
    {
        let i = Self::fit(index);
        let p = self.0.to_pointer();
        proof {
            lemma_split(p, i, 0);
            V::lemma_limits();
        }
        self.set_pointer((p & 0xff) | (i << 8))
    }

    /// Replaces the tag, keeping the slot index.
    pub fn set_tag(self, tag: Tag) -> (r: Self)
        ensures
            r@.is_pointer_spec() == self@.is_pointer_spec(),
            r@.is_marked_spec() == self@.is_marked_spec(),
            slot_of(r@) == slot_of(self@),
            tag_of(r@) == tag,
    {
        let p = self.0.to_pointer();
        proof {
            lemma_split(p, 0, tag as u64);
            V::lemma_limits();
            V::lemma_bounds(self.0);
            assert(p - p % 256 + tag < V::pointer_limit()) by (nonlinear_arith)
                requires
                    p < V::pointer_limit(),
                    V::pointer_limit() % 256 == 0,
                    tag < 256,
            ;
        }
        self.set_pointer((p & !0xffu64) | tag as u64)
    }

    fn set_pointer(self, pointer: u64) -> (r: Self)
        requires
            pointer < V::pointer_limit(),
        ensures
            r@.is_pointer_spec() == self@.is_pointer_spec(),
            r@.is_marked_spec() == self@.is_marked_spec(),
            r@.pointer_spec() == pointer,
    {
        proof {
            vstd::arithmetic::div_mod::lemma_small_mod(pointer as nat, V::pointer_limit() as nat);
        }
        Cons(self.0.set_pointer(pointer))
    }

    /// Views a value as a cell pointer.
    pub fn from_value(value: V) -> (r: Self)
        ensures
            r@ == value,
    {
        Cons(value)
    }

    /// Converts a cell pointer to a value.
    pub fn to_value(self) -> (r: V)
        ensures
            r == self@,
    {
        self.0
    }
}

} // verus!
