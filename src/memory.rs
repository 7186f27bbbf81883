use crate::cons::{index_limit, lemma_pointer_to, slot_of, Cons};
use crate::error::Error;
use crate::marking::{
    count_unmarked, lemma_count_update, lemma_marked_from_nothing, in_heap,
    lemma_walk_advance, lemma_walk_descend, lemma_walk_finish, lemma_walk_leaf, lemma_walk_pop,
    lemma_walk_start, marked_from, marked_reachable, marking_start, return_path, walk_inv,
};
use crate::reach::{is_path, lemma_reach_root, lemma_reach_step, reachable};
use crate::sweep::{last_free, link, swept, swept_free, swept_slot, zeroed};
use crate::value::Value;
use vstd::prelude::*;

verus! {

/// `after` is what a collection makes of `before`: a marking from the root,
/// then the sweep; on a sound heap with no mark, the marking marks exactly
/// the reachable slots.
pub open spec fn collected<V: Value>(before: Memory<V>, after: Memory<V>) -> bool {
    &&& after.root_spec() == before.root_spec()
    &&& exists|h: Seq<V>|
        #[trigger] marked_from(before.heap_spec(), before.root_spec(), h) && after.heap_spec()
            == swept(h) && after.free_spec() == swept_free(h)
    &&& marking_start(before.heap_spec(), before.root_spec()) ==> after.heap_spec() == swept(
        marked_reachable(before.heap_spec(), before.root_spec()),
    ) && after.free_spec() == swept_free(marked_reachable(before.heap_spec(), before.root_spec()))
}

/// `after` and `r` are what taking the first free cell of `before` and
/// filling it with `car` and `cdr` gives.
pub open spec fn popped<V: Value>(
    before: Memory<V>,
    car: V,
    cdr: V,
    after: Memory<V>,
    r: Result<Cons<V>, Error>,
) -> bool {
    let i = slot_of(before.free_spec());
    let h = before.heap_spec();
    &&& after.root_spec() == before.root_spec()
    &&& i + 1 < h.len() ==> r.is_ok() && r->Ok_0@ == before.free_spec() && after.heap_spec() == h.update(
        i as int,
        car,
    ).update(i + 1 as int, cdr) && after.free_spec() == h[i + 1 as int]
    &&& i + 1 >= h.len() ==> r == Err::<Cons<V>, Error>(Error::InvalidMemoryAccess)
        && after.heap_spec() == h && after.free_spec() == before.free_spec()
}

/// `after` and `r` are what allocating a cell for `car` and `cdr` in `before`
/// gives: the first free cell, after a collection if none was free; the
/// collection fails only when the root reaches past the heap's end.
pub open spec fn allocated<V: Value>(
    before: Memory<V>,
    car: V,
    cdr: V,
    after: Memory<V>,
    r: Result<Cons<V>, Error>,
) -> bool {
    &&& after.root_spec() == before.root_spec()
    &&& after.heap_spec().len() == before.heap_spec().len()
    &&& before.free_spec().is_pointer_spec() ==> popped(before, car, cdr, after, r)
    &&& !before.free_spec().is_pointer_spec() ==> {
        ||| r == Err::<Cons<V>, Error>(Error::InvalidMemoryAccess) && !in_heap(
            before.heap_spec(),
            before.root_spec(),
        ) && marked_from(before.heap_spec(), before.root_spec(), after.heap_spec())
        ||| exists|m: Memory<V>|
            #[trigger] collected(before, m) && m.wf() && m.heap_spec().len()
                == before.heap_spec().len() && (m.free_spec().is_pointer_spec() ==> popped(
                m,
                car,
                cdr,
                after,
                r,
            )) && (!m.free_spec().is_pointer_spec() ==> r == Err::<Cons<V>, Error>(
                Error::OutOfMemory,
            ) && after == m)
    }
}

/// A memory: a heap of cells, a root from which live cells are reached, and
/// the head of the free list.
#[derive(Clone, Debug)]
pub struct Memory<V> {
    heap: Vec<V>,
    root: V,
    free: V,
}

impl<V: Value> Memory<V> {
    /// Creates a memory over a heap: zeroes it, with no root, and links every
    /// cell into the free list.
    pub fn new(heap: Vec<V>) -> (r: Result<Self, Error>)
        requires
            heap@.len() % 2 == 0,
            heap@.len() <= index_limit::<V>(),
        ensures
            r.is_ok(),
            r->Ok_0.wf(),
            r->Ok_0.root_spec() == V::from_number_spec(0),
            r->Ok_0.heap_spec() == swept(zeroed::<V>(heap@.len())),
            r->Ok_0.free_spec() == swept_free(zeroed::<V>(heap@.len())),
    {
        let mut heap = heap;
        let len = heap.len();
        let mut i: usize = 0;
        while i < len
            invariant
                heap@.len() == len,
                i <= len,
                forall|j: int| 0 <= j < i ==> heap@[j] == V::from_number_spec(0),
            decreases len - i,
        {
            heap.set(i, V::zero());
            i = i + 1;
        }
        assert(heap@ =~= zeroed::<V>(len as nat));
        let mut this = Memory { heap, root: V::zero(), free: V::zero() };
        let ghost h0 = this.heap@;
        let ghost before = this;
        match this.collect_garbages() {
            Ok(()) => {},
            Err(e) => {
                return Err(e);
            },
        }
        proof {
            V::lemma_limits();
            V::lemma_from_number(0);
            let h = choose|h: Seq<V>|
                #[trigger] marked_from(before.heap_spec(), before.root_spec(), h) && this.heap_spec()
                    == swept(h) && this.free_spec() == swept_free(h);
            lemma_marked_from_nothing(h0, before.root, h);
        }
        Ok(this)
    }
    /// The heap's slots.
    pub closed spec fn heap_spec(&self) -> Seq<V> {
        self.heap@
    }

    /// The root.
    pub closed spec fn root_spec(&self) -> V {
        self.root
    }

    /// The head of the free list.
    pub closed spec fn free_spec(&self) -> V {
        self.free
    }

    /// The heap pairs its slots into cells, and every slot index fits in a
    /// cell pointer.
    pub open spec fn wf(&self) -> bool {
        &&& self.heap_spec().len() % 2 == 0
        &&& self.heap_spec().len() <= index_limit::<V>()
        &&& self.heap_spec().len() <= usize::MAX
    }

    /// Returns the heap's slots.
    pub fn heap(&self) -> (r: &[V])
        ensures
            r@ == self.heap_spec(),
    {
        self.heap.as_slice()
    }

    /// Returns the root.
    pub fn root(&self) -> (r: V)
        ensures
            r == self.root_spec(),
    {
        self.root
    }

    /// Sets the root.
    pub fn set_root(&mut self, value: V)
        ensures
            final(self).root_spec() == value,
            final(self).heap_spec() == old(self).heap_spec(),
            final(self).free_spec() == old(self).free_spec(),
    {
        self.root = value;
    }

    /// Returns the head of the free list.
    pub fn free(&self) -> (r: V)
        ensures
            r == self.free_spec(),
    {
        self.free
    }

    /// Returns the value at an index.
    pub fn get(&self, index: usize) -> (r: Result<V, Error>)
        ensures
            index < self.heap_spec().len() ==> r == Ok::<V, Error>(self.heap_spec()[index as int]),
            index >= self.heap_spec().len() ==> r == Err::<V, Error>(Error::InvalidMemoryAccess),
    {
        if index < self.heap.len() {
            Ok(self.heap[index])
        } else {
            Err(Error::InvalidMemoryAccess)
        }
    }

    /// Sets the value at an index.
    pub fn set(&mut self, index: usize, value: V) -> (r: Result<(), Error>)
        ensures
            final(self).root_spec() == old(self).root_spec(),
            final(self).free_spec() == old(self).free_spec(),
            index < old(self).heap_spec().len() ==> r == Ok::<(), Error>(())
                && final(self).heap_spec() == old(self).heap_spec().update(index as int, value),
            index >= old(self).heap_spec().len() ==> r == Err::<(), Error>(
                Error::InvalidMemoryAccess,
            ) && final(self).heap_spec() == old(self).heap_spec(),
    {
        if index < self.heap.len() {
            self.heap.set(index, value);
            Ok(())
        } else {
            Err(Error::InvalidMemoryAccess)
        }
    }

    /// Marks what the root reaches, then sweeps the rest into the free list.
    /// Fails, with the heap only marked, when the root or a pointer in a
    /// reachable slot designates a slot past the heap's end; on a heap with
    /// no mark whose reachable pointers designate head slots, exactly then.
    pub fn collect_garbages(&mut self) -> (r: Result<(), Error>)
        requires
            old(self).wf(),
        ensures
            final(self).wf(),
            final(self).root_spec() == old(self).root_spec(),
            final(self).heap_spec().len() == old(self).heap_spec().len(),
            r.is_ok() ==> collected(*old(self), *final(self)),
            r.is_err() ==> r == Err::<(), Error>(Error::InvalidMemoryAccess) && final(self).free_spec() == old(self).free_spec() && marked_from(
                old(self).heap_spec(),
                old(self).root_spec(),
                final(self).heap_spec(),
            ),
            !old(self).root_spec().is_pointer_spec() ==> r.is_ok(),
            r.is_err() ==> !in_heap(old(self).heap_spec(), old(self).root_spec()),
            marking_start(old(self).heap_spec(), old(self).root_spec()) ==> r.is_ok() == in_heap(
                old(self).heap_spec(),
                old(self).root_spec(),
            ),
            marking_start(old(self).heap_spec(), old(self).root_spec()) && r.is_ok() ==> final(self).heap_spec()
                == swept(marked_reachable(old(self).heap_spec(), old(self).root_spec()))
                && final(self).free_spec() == swept_free(
                marked_reachable(old(self).heap_spec(), old(self).root_spec()),
            ),
    {
        match self.mark() {
            Ok(()) => {},
            Err(e) => {
                return Err(e);
            },
        }
        let ghost h = self.heap@;
        self.sweep();
        assert(marked_from(old(self).heap_spec(), old(self).root_spec(), h));
        Ok(())
    }

    /// Takes the first free cell and fills it.
    fn pop(&mut self, car: V, cdr: V) -> (r: Result<Cons<V>, Error>)
        requires
            old(self).wf(),
        ensures
            final(self).wf(),
            popped(*old(self), car, cdr, *final(self), r),
    {
        let cons = Cons::from_value(self.free);
        let index = cons.index();
        if index < self.heap.len() && index + 1 < self.heap.len() {
            self.free = self.heap[index + 1];
            self.heap.set(index, car);
            self.heap.set(index + 1, cdr);
            Ok(cons)
        } else {
            Err(Error::InvalidMemoryAccess)
        }
    }

    /// Allocates a cell holding `car` and `cdr`, collecting first if no cell
    /// is free.
    pub fn allocate(&mut self, car: V, cdr: V) -> (r: Result<Cons<V>, Error>)
        requires
            old(self).wf(),
        ensures
            final(self).wf(),
            allocated(*old(self), car, cdr, *final(self), r),
    {
        if self.is_out_of_memory() {
            match self.collect_garbages() {
                Ok(()) => {},
                Err(e) => {
                    return Err(e);
                },
            }
            if self.is_out_of_memory() {
                return Err(Error::OutOfMemory);
            }
        }
        self.pop(car, cdr)
    }

    fn is_out_of_memory(&self) -> (r: bool)
        ensures
            r == !self.free_spec().is_pointer_spec(),
    {
        !self.free.is_pointer()
    }

    /// Marks every slot reachable from the root, reversing pointers on the
    /// way down to remember the way back, so that no stack is needed.
    #[verifier::rlimit(40)]
    fn mark(&mut self) -> (r: Result<(), Error>)
        requires
            old(self).wf(),
        ensures
            final(self).wf(),
            final(self).root_spec() == old(self).root_spec(),
            final(self).free_spec() == old(self).free_spec(),
            marked_from(old(self).heap_spec(), old(self).root_spec(), final(self).heap_spec()),
            r.is_err() ==> r == Err::<(), Error>(Error::InvalidMemoryAccess),
            !old(self).root_spec().is_pointer_spec() ==> r.is_ok() && final(self).heap_spec()
                == old(self).heap_spec(),
            r.is_err() ==> !in_heap(old(self).heap_spec(), old(self).root_spec()),
            marking_start(old(self).heap_spec(), old(self).root_spec()) ==> r.is_ok() == in_heap(
                old(self).heap_spec(),
                old(self).root_spec(),
            ),
            marking_start(old(self).heap_spec(), old(self).root_spec()) && r.is_ok() ==> final(self).heap_spec() == marked_reachable(old(self).heap_spec(), old(self).root_spec()),
    {
        let ghost h0 = self.heap@;
        let ghost r0 = self.root;
        let ghost good = marking_start(h0, r0);
        if !self.root.is_pointer() {
            proof {
                assert forall|s: int| 0 <= s < h0.len() implies h0[s] == marked_reachable(h0, r0)[s] by {
                    if reachable(h0, r0, s as nat) {
                        let path = choose|path: Seq<nat>|
                            #[trigger] is_path(h0, r0, path) && path.last() == s;
                    }
                }
                assert(h0 =~= marked_reachable(h0, r0));
                assert forall|s: nat| #[trigger] reachable(h0, r0, s) implies s < h0.len() by {
                    let path = choose|path: Seq<nat>|
                        #[trigger] is_path(h0, r0, path) && path.last() == s;
                }
            }
            return Ok(());
        }
        let len = self.heap.len();
        let mut previous = V::zero();
        let mut current = self.root;
        let ghost mut stack: Seq<nat> = Seq::empty();
        proof {
            lemma_reach_root(h0, r0);
            if good {
                lemma_walk_start(h0, r0, previous);
            }
        }
        loop
            invariant
                self.wf(),
                len == self.heap@.len(),
                self.root == r0,
                self.free == old(self).free,
                h0 == old(self).heap@,
                r0 == old(self).root,
                r0.is_pointer_spec(),
                good == marking_start(h0, r0),
                marked_from(h0, r0, self.heap@),
                current.is_pointer_spec(),
                reachable(h0, r0, slot_of(current)),
                return_path(self.heap@, stack, previous),
                forall|k: int| 0 <= k < stack.len() ==> reachable(h0, r0, #[trigger] stack[k]),
                good ==> walk_inv(h0, r0, self.heap@, stack, previous, current),
            ensures
                self.wf(),
                self.root == r0,
                self.free == old(self).free,
                marked_from(h0, r0, self.heap@),
                good ==> self.heap@ == marked_reachable(h0, r0) && in_heap(h0, r0),
            decreases count_unmarked(self.heap@), stack.len(), if slot_of(current) % 2 == 0 {
                1nat
            } else {
                0nat
            },
        {
            let cons = Cons::from_value(current);
            let index = cons.index();
            if index >= len {
                proof {
                    assert(!in_heap(h0, r0));
                }
                return Err(Error::InvalidMemoryAccess);
            }
            let value = self.heap[index];
            let ghost h = self.heap@;
            if !value.is_marked() {
                proof {
                    V::lemma_mark(previous, true);
                    V::lemma_mark(value, true);
                    lemma_count_update(h, index as int, previous.mark_spec(true));
                    lemma_count_update(h, index as int, value.mark_spec(true));
                }
                if value.is_pointer() {
                    proof {
                        if good {
                            lemma_walk_descend(h0, r0, h, stack, previous, current);
                        }
                    }
                    self.heap.set(index, previous.mark(true));
                    previous = current;
                    current = value;
                    proof {
                        lemma_reach_step(h0, r0, index as nat, slot_of(value));
                        stack = stack.push(index as nat);
                    }
                } else {
                    proof {
                        if good {
                            lemma_walk_leaf(h0, r0, h, stack, previous, current);
                        }
                    }
                    self.heap.set(index, value.mark(true));
                }
            } else if index % 2 == 0 {
                let next = cons.set_index(index + 1).to_value();
                proof {
                    vstd::arithmetic::div_mod::lemma_small_mod(
                        (index + 1) as nat,
                        index_limit::<V>(),
                    );
                    lemma_reach_step(h0, r0, index as nat, (index + 1) as nat);
                    if good {
                        lemma_walk_advance(h0, r0, h, stack, previous, current, next);
                    }
                }
                current = next;
            } else if !previous.is_pointer() {
                proof {
                    assert(stack =~= Seq::<nat>::empty());
                    if good {
                        lemma_walk_finish(h0, r0, h, previous, current);
                    }
                }
                break ;
            } else {
                let previous_cons = Cons::from_value(previous);
                let p = previous_cons.index();
                let restored = cons.set_index(index - 1).to_value().mark(true);
                proof {
                    assert(stack[stack.len() - 1] == p);
                    lemma_count_update(h, p as int, restored);
                    vstd::arithmetic::div_mod::lemma_small_mod(
                        (index - 1) as nat,
                        index_limit::<V>(),
                    );
                    if good {
                        lemma_walk_pop(h0, r0, h, stack, previous, current, restored);
                    }
                }
                previous = self.heap[p];
                self.heap.set(p, restored);
                current = previous_cons.to_value();
                proof {
                    stack = stack.drop_last();
                }
            }
        }
        Ok(())
    }

    /// Clears the marks of the marked cells and links the others into a new
    /// free list, from the lowest cell up.
    fn sweep(&mut self)
        requires
            old(self).wf(),
        ensures
            final(self).heap_spec() == swept(old(self).heap_spec()),
            final(self).free_spec() == swept_free(old(self).heap_spec()),
            final(self).root_spec() == old(self).root_spec(),
    {
        let ghost h0 = self.heap@;
        let len = self.heap.len();
        self.free = V::zero();
        let mut index: usize = 0;
        while index < len
            invariant
                self.wf(),
                len == self.heap@.len(),
                len == h0.len(),
                index % 2 == 0,
                index <= len,
                self.root == old(self).root,
                self.free == link::<V>(last_free(h0, (index / 2) as nat)),
                forall|j: int| 0 <= j < index ==> self.heap@[j] == swept_slot(h0, j),
                forall|j: int| index <= j < len ==> self.heap@[j] == h0[j],
            decreases len - index,
        {
            let value = self.heap[index];
            if value.is_marked() {
                let tail = self.heap[index + 1];
                self.heap.set(index, value.mark(false));
                self.heap.set(index + 1, tail.mark(false));
            } else {
                let free = self.free;
                self.heap.set(index + 1, free);
                self.free = Cons::<V>::new(index).to_value();
                proof {
                    lemma_pointer_to::<V>(index as nat);
                    vstd::arithmetic::div_mod::lemma_small_mod(
                        index as nat,
                        index_limit::<V>(),
                    );
                }
            }
            assert(last_free(h0, (index / 2 + 1) as nat) == if h0[index as int].is_marked_spec() {
                last_free(h0, (index / 2) as nat)
            } else {
                Some(index as nat)
            });
            index = index + 2;
        }
        assert(self.heap@ =~= swept(h0));
    }
}

} // verus!
