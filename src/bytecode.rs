use crate::error::Error;
use vstd::arithmetic::div_mod::{lemma_add_mod_noop, lemma_mul_mod_noop_right};
use vstd::prelude::*;

verus! {

/// The base of the digits of an integer in bytecode: each byte carries a
/// seven-bit digit above its continuation bit.
pub const INTEGER_BASE: u64 = 128;

/// One more than the largest `u64`.
pub open spec fn word_range() -> nat {
    0x1_0000_0000_0000_0000
}

/// The digits of an integer's tail from `position` on, the first worth
/// `base` and each next one `INTEGER_BASE` times more, with the position
/// after the last digit; `None` if the bytes end while a byte's low bit says
/// that more follow.
pub open spec fn integer_tail(bytes: Seq<u8>, position: nat, base: nat) -> Option<(nat, nat)>
    decreases bytes.len() - position,
{
    if position >= bytes.len() {
        None
    } else {
        let b = bytes[position as int];
        let digit = (b / 2) as nat * base;
        if b % 2 == 1 {
            match integer_tail(bytes, position + 1, base * 128) {
                Some((v, p)) => Some((digit + v, p)),
                None => None,
            }
        } else {
            Some((digit, position + 1))
        }
    }
}

/// Adds `a` to the value of a decoded tail.
pub open spec fn shifted(a: nat, tail: Option<(nat, nat)>) -> Option<(nat, nat)> {
    match tail {
        Some((v, p)) => Some((a + v, p)),
        None => None,
    }
}

/// Decodes an integer whose first byte `x` was read: its digit is worth one,
/// and if its low bit is set the digits that follow from `position` on are
/// worth `base`, `base * INTEGER_BASE`, and so on. Returns the integer,
/// modulo 2^64, and the position after it.
pub fn decode_integer_tail(bytes: &[u8], position: usize, x: u8, base: u64) -> (r: Result<
    (u64, usize),
    Error,
>)
    ensures
        x % 2 == 0 ==> r == Ok::<(u64, usize), Error>(((x / 2) as u64, position)),
        x % 2 == 1 ==> match integer_tail(bytes@, position as nat, base as nat) {
            None => r == Err::<(u64, usize), Error>(Error::BytecodeEnd),
            Some((v, p)) => r == Ok::<(u64, usize), Error>(
                ((((x / 2) as nat + v) % word_range()) as u64, p as usize),
            ),
        },
{
    assert(x >> 1 == x / 2 && (x & 1 != 0) == (x % 2 == 1)) by (bit_vector);
    let mut y = (x >> 1) as u64;
    if x & 1 == 0 {
        return Ok((y, position));
    }
    let ghost whole = shifted((x / 2) as nat, integer_tail(bytes@, position as nat, base as nat));
    let ghost mut sum: nat = (x / 2) as nat;
    let ghost mut weight: nat = base as nat;
    let mut at = position;
    let mut scale = base;
    loop
        invariant
            x % 2 == 1,
            whole == shifted((x / 2) as nat, integer_tail(bytes@, position as nat, base as nat)),
            y as nat == sum % word_range(),
            scale as nat == weight % word_range(),
            whole == shifted(sum, integer_tail(bytes@, at as nat, weight)),
        decreases bytes@.len() - at,
    {
        if at >= bytes.len() {
            return Err(Error::BytecodeEnd);
        }
        let b = bytes[at];
        assert(b >> 1 == b / 2 && (b & 1 != 0) == (b % 2 == 1)) by (bit_vector);
        let digit = (b >> 1) as u64;
        proof {
            lemma_mul_mod_noop_right(digit as int, weight as int, word_range() as int);
            lemma_add_mod_noop(sum as int, digit * weight, word_range() as int);
            lemma_mul_mod_noop_right(128, weight as int, word_range() as int);
            assert(weight * 128 == 128 * weight);
            sum = (sum + digit * weight) as nat;
            weight = (weight * 128) as nat;
        }
        y = y.wrapping_add(digit.wrapping_mul(scale));
        scale = scale.wrapping_mul(INTEGER_BASE);
        at = at + 1;
        if b & 1 == 0 {
            return Ok((y, at));
        }
    }
}

} // verus!
