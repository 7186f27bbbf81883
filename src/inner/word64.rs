//! The compact encoding on 64-bit words.

use vstd::prelude::*;

verus! {

/// Packs a cell index into a word whose low bit is clear; the top bit is dropped.
pub fn box_cons(cons: u64) -> (r: u64)
    ensures
        r == (2 * cons) % 0x1_0000_0000_0000_0000,
{
    assert((cons << 1) == (2 * cons) % 0x1_0000_0000_0000_0000) by (bit_vector);
    cons << 1
}

/// Recovers the cell index of a packed word.
pub fn unbox_cons(cons: u64) -> (r: u64)
    ensures
        r == cons / 2,
{
    assert(cons >> 1 == cons / 2) by (bit_vector);
    cons >> 1
}

/// Checks if a word holds a cell index.
pub fn is_cons(value: u64) -> (r: bool)
    ensures
        r == (value % 2 == 0),
{
    assert((value & 1 == 0) == (value % 2 == 0)) by (bit_vector);
    value & 1 == 0
}

/// Packs an integer, which must fit in 63 bits.
pub fn from_number(number: i64) -> (r: i64)
    requires
        -0x4000_0000_0000_0000 <= number < 0x4000_0000_0000_0000,
    ensures
        r == 2 * number + 1,
{
    assert(-0x4000_0000_0000_0000 <= number < 0x4000_0000_0000_0000 ==> (number << 1) | 1 == 2
        * number + 1) by (bit_vector);
    (number << 1) | 1
}

/// Recovers a packed integer, with an arithmetic shift.
pub fn to_number(number: i64) -> (r: i64)
    ensures
        r == number / 2,
{
    assert(number >> 1 == number / 2) by (bit_vector);
    number >> 1
}

/// Packs a 64-bit integer, which must fit in 63 bits.
pub fn from_i64(number: i64) -> (r: i64)
    requires
        -0x4000_0000_0000_0000 <= number < 0x4000_0000_0000_0000,
    ensures
        r == 2 * number + 1,
{
    from_number(number)
}

/// Recovers a packed integer as a 64-bit integer.
pub fn to_i64(number: i64) -> (r: i64)
    ensures
        r == number / 2,
{
    to_number(number)
}

/// Reads a raw word as a packed integer.
pub fn from_raw(raw: u64) -> (r: i64)
    ensures
        r == raw as i64,
{
    raw as i64
}

/// Reads a packed integer as a raw word.
pub fn to_raw(number: i64) -> (r: u64)
    ensures
        r == number as u64,
{
    number as u64
}

} // verus!
