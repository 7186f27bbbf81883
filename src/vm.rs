use crate::cons::{index_limit, slot_of, tag_of, Cons};
use crate::error::Error;
use crate::instruction::Instruction;
use crate::memory::{allocated, Memory};
use crate::sweep::{swept, swept_free, zeroed};
use crate::value::Value;
use vstd::prelude::*;

verus! {

/// The slot that address `a` designates from slot `i`: the bits of `a` below
/// its highest set bit are added one by one, lowest first.
pub open spec fn path(i: nat, a: nat) -> nat
    decreases a,
{
    if a <= 1 {
        i
    } else {
        path(i + a % 2, a / 2)
    }
}

/// A path never goes below its start.
proof fn lemma_path_ge(i: nat, a: nat)
    ensures
        path(i, a) >= i,
    decreases a,
{
    if a > 1 {
        lemma_path_ge(i + a % 2, a / 2);
    }
}

/// The slot that address `a` designates in a memory.
pub open spec fn slot_at<V: Value>(m: Memory<V>, a: nat) -> nat {
    path(slot_of(m.root_spec()), a)
}

/// `after` and `r` are what one instruction gives in `before`. The
/// instruction's cell is the one that `cell` points to: its head is the
/// operand and its tail points to the next cell, with a tag whose low bit is
/// the opcode and whose other bits are the destination's address. A tail that
/// is no pointer halts.
pub open spec fn stepped<V: Value>(
    before: Memory<V>,
    cell: V,
    after: Memory<V>,
    r: Result<Option<Cons<V>>, Error>,
) -> bool {
    let h = before.heap_spec();
    let n = h.len();
    let i = slot_of(cell);
    if i + 1 >= n {
        r == Err::<Option<Cons<V>>, Error>(Error::InvalidMemoryAccess) && after == before
    } else if !h[i + 1 as int].is_pointer_spec() {
        r == Ok::<Option<Cons<V>>, Error>(None) && after == before
    } else {
        let next = h[i + 1 as int];
        let operand = h[i as int];
        let tag = tag_of(next);
        let d = slot_at(before, tag / 2);
        if d >= n {
            r == Err::<Option<Cons<V>>, Error>(Error::InvalidMemoryAccess) && after == before
        } else if tag % 2 == 0 {
            exists|m: Memory<V>, a: Result<Cons<V>, Error>|
                #[trigger] allocated(before, operand, h[d as int], m, a) && match a {
                    Ok(c) => r matches Ok(Some(x)) && x@ == next && after.heap_spec()
                        == m.heap_spec().update(d as int, c@) && after.root_spec() == m.root_spec()
                        && after.free_spec() == m.free_spec(),
                    Err(e) => r == Err::<Option<Cons<V>>, Error>(e) && after == m,
                }
        } else if operand.is_pointer_spec() {
            r == Err::<Option<Cons<V>>, Error>(Error::NumberExpected) && after == before
        } else if operand.number_spec() < 0 || operand.number_spec() >= n {
            r == Err::<Option<Cons<V>>, Error>(Error::InvalidMemoryAccess) && after == before
        } else {
            &&& r matches Ok(Some(x)) && x@ == next
            &&& after.heap_spec() == h.update(d as int, h[operand.number_spec() as int])
            &&& after.root_spec() == before.root_spec()
            &&& after.free_spec() == before.free_spec()
        }
    }
}

/// `after` and `r` are what at most `fuel` instructions give in `before`,
/// from the cell that `cell` points to: `Ok(true)` once one halts,
/// `Ok(false)` when the fuel runs out first, or the first error.
pub open spec fn ran<V: Value>(
    before: Memory<V>,
    cell: V,
    fuel: nat,
    after: Memory<V>,
    r: Result<bool, Error>,
) -> bool
    decreases fuel,
{
    if fuel == 0 {
        after == before && r == Ok::<bool, Error>(false)
    } else {
        exists|m: Memory<V>, s: Result<Option<Cons<V>>, Error>|
            #[trigger] stepped(before, cell, m, s) && match s {
                Err(e) => r == Err::<bool, Error>(e) && after == m,
                Ok(None) => r == Ok::<bool, Error>(true) && after == m,
                Ok(Some(c)) => ran(m, c@, (fuel - 1) as nat, after, r),
            }
    }
}

/// A virtual machine: a memory, and the address `C` of the slot that holds
/// the program.
#[derive(Debug)]
pub struct Vm<V, const C: usize> {
    memory: Memory<V>,
}

impl<V: Value, const C: usize> Vm<V, C> {
    /// The memory.
    pub closed spec fn memory_spec(&self) -> Memory<V> {
        self.memory
    }

    /// Creates a virtual machine over a heap, as `Memory::new` does.
    pub fn new(heap: Vec<V>) -> (r: Result<Self, Error>)
        requires
            heap@.len() % 2 == 0,
            heap@.len() <= index_limit::<V>(),
        ensures
            r.is_ok(),
            r->Ok_0.memory_spec().wf(),
            r->Ok_0.memory_spec().root_spec() == V::from_number_spec(0),
            r->Ok_0.memory_spec().heap_spec() == swept(zeroed::<V>(heap@.len())),
            r->Ok_0.memory_spec().free_spec() == swept_free(zeroed::<V>(heap@.len())),
    {
        match Memory::new(heap) {
            Ok(memory) => Ok(Vm { memory }),
            Err(e) => Err(e),
        }
    }

    /// Returns the memory.
    pub fn memory(&self) -> (r: &Memory<V>)
        ensures
            *r == self.memory_spec(),
    {
        &self.memory
    }

    /// Returns the memory, to change it.
    pub fn memory_mut(&mut self) -> (r: &mut Memory<V>)
        ensures
            *r == old(self).memory_spec(),
            final(self).memory_spec() == *final(r),
    {
        &mut self.memory
    }

    /// Returns the slot that an address designates from the root's cell.
    pub fn index(&self, address: usize) -> (r: Result<usize, Error>)
        ensures
            slot_at(self.memory_spec(), address as nat) < self.memory_spec().heap_spec().len()
                ==> r == Ok::<usize, Error>(slot_at(self.memory_spec(), address as nat) as usize),
            slot_at(self.memory_spec(), address as nat) >= self.memory_spec().heap_spec().len()
                ==> r == Err::<usize, Error>(Error::InvalidMemoryAccess),
    {
        let len = self.memory.heap().len();
        let mut index = Cons::from_value(self.memory.root()).index();
        let mut rest = address;
        proof {
            lemma_path_ge(index as nat, rest as nat);
        }
        if index >= len {
            return Err(Error::InvalidMemoryAccess);
        }
        while rest > 1
            invariant
                len == self.memory_spec().heap_spec().len(),
                index < len,
                path(index as nat, rest as nat) == slot_at(self.memory_spec(), address as nat),
            decreases rest,
        {
            assert(rest & 1 == rest % 2 && rest >> 1 == rest / 2) by (bit_vector);
            index = index + (rest & 1);
            rest = rest >> 1;
            proof {
                lemma_path_ge(index as nat, rest as nat);
            }
            if index >= len {
                return Err(Error::InvalidMemoryAccess);
            }
        }
        Ok(index)
    }

    /// Runs the instruction in the cell that `cell` points to; returns the
    /// next cell, or `None` if the instruction's tail halts.
    pub fn step(&mut self, cell: Cons<V>) -> (r: Result<Option<Cons<V>>, Error>)
        requires
            old(self).memory_spec().wf(),
        ensures
            final(self).memory_spec().wf(),
            stepped(old(self).memory_spec(), cell@, final(self).memory_spec(), r),
    {
        let len = self.memory.heap().len();
        let i = cell.index();
        if i >= len || i + 1 >= len {
            return Err(Error::InvalidMemoryAccess);
        }
        let next = match self.memory.get(i + 1) {
            Ok(v) => v,
            Err(e) => {
                return Err(e);
            },
        };
        if !next.is_pointer() {
            return Ok(None);
        }
        let operand = match self.memory.get(i) {
            Ok(v) => v,
            Err(e) => {
                return Err(e);
            },
        };
        let instruction = Cons::from_value(next);
        let tag = instruction.tag();
        assert(tag >> 1 == tag / 2) by (bit_vector);
        let d = match self.index((tag >> 1) as usize) {
            Ok(d) => d,
            Err(e) => {
                return Err(e);
            },
        };
        match Instruction::from_tag(tag) {
            Instruction::Cons => {
                let value = match self.memory.get(d) {
                    Ok(v) => v,
                    Err(e) => {
                        return Err(e);
                    },
                };
                let ghost before = self.memory;
                let a = self.memory.allocate(operand, value);
                let ghost m = self.memory;
                match a {
                    Ok(c) => {
                        let _ = self.memory.set(d, c.to_value());
                        let r = Ok(Some(instruction));
                        assert(allocated(before, operand, value, m, a));
                        r
                    },
                    Err(e) => {
                        assert(allocated(before, operand, value, m, a));
                        Err(e)
                    },
                }
            },
            Instruction::Move => {
                if operand.is_pointer() {
                    return Err(Error::NumberExpected);
                }
                let k = operand.to_number();
                if k < 0 || k as u64 >= len as u64 {
                    return Err(Error::InvalidMemoryAccess);
                }
                let value = match self.memory.get(k as usize) {
                    Ok(v) => v,
                    Err(e) => {
                        return Err(e);
                    },
                };
                let _ = self.memory.set(d, value);
                Ok(Some(instruction))
            },
        }
    }

    /// Runs at most `steps` instructions of the program whose first cell is
    /// in the slot at address `C`; returns whether the program halted.
    pub fn run(&mut self, steps: usize) -> (r: Result<bool, Error>)
        requires
            old(self).memory_spec().wf(),
        ensures
            final(self).memory_spec().wf(),
            ({
                let before = old(self).memory_spec();
                let after = final(self).memory_spec();
                let d = slot_at(before, C as nat);
                if d >= before.heap_spec().len() {
                    r == Err::<bool, Error>(Error::InvalidMemoryAccess) && after == before
                } else if !before.heap_spec()[d as int].is_pointer_spec() {
                    r == Ok::<bool, Error>(true) && after == before
                } else {
                    ran(before, before.heap_spec()[d as int], steps as nat, after, r)
                }
            }),
    {
        let ghost before = self.memory;
        let d = match self.index(C) {
            Ok(d) => d,
            Err(e) => {
                return Err(e);
            },
        };
        let code = match self.memory.get(d) {
            Ok(v) => v,
            Err(e) => {
                return Err(e);
            },
        };
        if !code.is_pointer() {
            return Ok(true);
        }
        let mut cell = Cons::from_value(code);
        let mut left = steps;
        while left > 0
            invariant
                self.memory_spec().wf(),
                before == old(self).memory_spec(),
                d == slot_at(before, C as nat),
                d < before.heap_spec().len(),
                code == before.heap_spec()[d as int],
                code.is_pointer_spec(),
                forall|after: Memory<V>, r: Result<bool, Error>|
                    ran(self.memory_spec(), cell@, left as nat, after, r) ==> #[trigger] ran(
                        before,
                        code,
                        steps as nat,
                        after,
                        r,
                    ),
            decreases left,
        {
            let ghost now = self.memory;
            let s = self.step(cell);
            let ghost m = self.memory;
            proof {
                assert forall|after: Memory<V>, r: Result<bool, Error>|
                    (match s {
                        Err(e) => r == Err::<bool, Error>(e) && after == m,
                        Ok(None) => r == Ok::<bool, Error>(true) && after == m,
                        Ok(Some(c)) => ran(m, c@, (left - 1) as nat, after, r),
                    }) implies #[trigger] ran(before, code, steps as nat, after, r) by {
                    assert(stepped(now, cell@, m, s));
                    assert(ran(now, cell@, left as nat, after, r));
                }
            }
            match s {
                Err(e) => {
                    return Err(e);
                },
                Ok(None) => {
                    return Ok(true);
                },
                Ok(Some(next)) => {
                    cell = next;
                },
            }
            left = left - 1;
        }
        Ok(false)
    }
}

} // verus!
