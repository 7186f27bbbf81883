//! The heap and the free list that the sweep leaves.

use crate::cons::{index_limit, lemma_pointer_to, pointer_to, slot_of};
use crate::value::Value;
use vstd::prelude::*;

verus! {


/// The head slot of the last cell, among the first `k`, whose head slot is
/// not marked.
pub open spec fn last_free<V: Value>(h: Seq<V>, k: nat) -> Option<nat>
    decreases k,
{
    if k == 0 {
        None
    } else {
        let j = (2 * (k - 1)) as nat;
        if h[j as int].is_marked_spec() {
            last_free(h, (k - 1) as nat)
        } else {
            Some(j)
        }
    }
}

/// The value that links to a free cell, or ends the free list.
pub open spec fn link<V: Value>(cell: Option<nat>) -> V {
    match cell {
        None => V::from_number_spec(0),
        Some(j) => pointer_to::<V>(j),
    }
}

/// A slot after the sweep: a marked cell loses its marks; an unmarked cell
/// keeps its head and links, through its tail, to the free cell below it.
pub open spec fn swept_slot<V: Value>(h: Seq<V>, i: int) -> V {
    let head = i - i % 2;
    if h[head].is_marked_spec() {
        h[i].mark_spec(false)
    } else if i % 2 == 0 {
        h[i]
    } else {
        link(last_free(h, (i / 2) as nat))
    }
}

/// The heap after the sweep.
pub open spec fn swept<V: Value>(h: Seq<V>) -> Seq<V> {
    Seq::new(h.len(), |i: int| swept_slot(h, i))
}

/// The free list after the sweep.
pub open spec fn swept_free<V: Value>(h: Seq<V>) -> V {
    link(last_free(h, h.len() / 2))
}

/// The head slots of the cells, among the first `k`, whose head slot is not
/// marked, from the highest down.
pub open spec fn unmarked_cells<V: Value>(h: Seq<V>, k: nat) -> Seq<nat>
    decreases k,
{
    if k == 0 {
        Seq::empty()
    } else {
        let j = (2 * (k - 1)) as nat;
        if h[j as int].is_marked_spec() {
            unmarked_cells(h, (k - 1) as nat)
        } else {
            seq![j].add(unmarked_cells(h, (k - 1) as nat))
        }
    }
}

/// `start` heads a list through the tail slots of `cells`, in that order,
/// that ends in a value that is not a pointer.
pub open spec fn free_list<V: Value>(h: Seq<V>, start: V, cells: Seq<nat>) -> bool
    decreases cells.len(),
{
    if cells.len() == 0 {
        !start.is_pointer_spec()
    } else {
        &&& start.is_pointer_spec()
        &&& slot_of(start) == cells[0]
        &&& cells[0] + 1 < h.len()
        &&& free_list(h, h[cells[0] + 1 as int], cells.drop_first())
    }
}

/// No slot of the heap is marked.
pub open spec fn unmarked<V: Value>(h: Seq<V>) -> bool {
    forall|i: int| 0 <= i < h.len() ==> !(#[trigger] h[i]).is_marked_spec()
}

/// A heap of `n` slots that all hold the integer zero.
pub open spec fn zeroed<V: Value>(n: nat) -> Seq<V> {
    Seq::new(n, |i: int| V::from_number_spec(0))
}

/// The shape of `unmarked_cells`: even head slots below `2 * k`, each not
/// marked, strictly descending, and every such unmarked head among them.
pub proof fn lemma_unmarked_cells<V: Value>(h: Seq<V>, k: nat)
    requires
        2 * k <= h.len(),
    ensures
        forall|i: int|
            0 <= i < unmarked_cells(h, k).len() ==> {
                let c = #[trigger] unmarked_cells(h, k)[i];
                &&& c % 2 == 0
                &&& c < 2 * k
                &&& !h[c as int].is_marked_spec()
            },
        forall|i: int, j: int|
            0 <= i < j < unmarked_cells(h, k).len() ==> unmarked_cells(h, k)[i] > unmarked_cells(
                h,
                k,
            )[j],
        forall|c: nat|
            c % 2 == 0 && c < 2 * k && !h[c as int].is_marked_spec() ==> unmarked_cells(
                h,
                k,
            ).contains(c),
    decreases k,
{
    if k > 0 {
        let j = (2 * (k - 1)) as nat;
        lemma_unmarked_cells(h, (k - 1) as nat);
        let rest = unmarked_cells(h, (k - 1) as nat);
        if h[j as int].is_marked_spec() {
            assert forall|c: nat|
                c % 2 == 0 && c < 2 * k && !h[c as int].is_marked_spec() implies rest.contains(c) by {
                assert(c != j);
                assert(c < 2 * ((k - 1) as nat));
            }
        } else {
            let cells = unmarked_cells(h, k);
            assert(cells =~= seq![j].add(rest));
            assert forall|i: int| 0 <= i < cells.len() && i > 0 implies cells[i] == rest[i - 1] by {}
            assert forall|c: nat|
                c % 2 == 0 && c < 2 * k && !h[c as int].is_marked_spec() implies cells.contains(
                c,
            ) by {
                if c == j {
                    assert(cells[0] == c);
                } else {
                    assert(c < 2 * ((k - 1) as nat));
                    assert(rest.contains(c));
                    let i = choose|i: int| 0 <= i < rest.len() && rest[i] == c;
                    assert(cells[i + 1] == c);
                }
            }
        }
    }
}

/// When no head slot is marked, every cell is listed.
pub proof fn lemma_unmarked_cells_all<V: Value>(h: Seq<V>, k: nat)
    requires
        2 * k <= h.len(),
        forall|c: int| 0 <= c < 2 * k && c % 2 == 0 ==> !(#[trigger] h[c]).is_marked_spec(),
    ensures
        unmarked_cells(h, k).len() == k,
    decreases k,
{
    if k > 0 {
        lemma_unmarked_cells_all(h, (k - 1) as nat);
    }
}

/// After the sweep, the free list runs through the unmarked cells, from the
/// highest down.
pub proof fn lemma_swept_chain<V: Value>(h: Seq<V>, k: nat)
    requires
        h.len() % 2 == 0,
        h.len() <= index_limit::<V>(),
        h.len() <= usize::MAX,
        2 * k <= h.len(),
    ensures
        free_list(swept(h), link::<V>(last_free(h, k)), unmarked_cells(h, k)),
    decreases k,
{
    V::lemma_limits();
    V::lemma_from_number(0);
    if k > 0 {
        let j = (2 * (k - 1)) as nat;
        lemma_swept_chain(h, (k - 1) as nat);
        if !h[j as int].is_marked_spec() {
            lemma_pointer_to::<V>(j);
            let cells = unmarked_cells(h, k);
            assert(cells.drop_first() =~= unmarked_cells(h, (k - 1) as nat));
            assert(swept(h)[j + 1 as int] == link::<V>(last_free(h, (k - 1) as nat)));
        }
    }
}

/// No slot is marked after the sweep.
pub proof fn lemma_swept_unmarked<V: Value>(h: Seq<V>)
    ensures
        unmarked(swept(h)),
{
    V::lemma_limits();
    V::lemma_from_number(0);
    assert forall|i: int| 0 <= i < swept(h).len() implies !(#[trigger] swept(h)[i]).is_marked_spec() by {
        V::lemma_mark(h[i], false);
        match last_free(h, (i / 2) as nat) {
            None => {},
            Some(j) => {
                V::lemma_from_pointer((j * 256) as u64);
            },
        }
    }
}

/// Every cell of a free list has its tail slot in the heap.
pub proof fn lemma_free_list_bounds<V: Value>(h: Seq<V>, start: V, cells: Seq<nat>)
    requires
        free_list(h, start, cells),
    ensures
        forall|i: int| 0 <= i < cells.len() ==> #[trigger] cells[i] + 1 < h.len(),
    decreases cells.len(),
{
    if cells.len() > 0 {
        let rest = cells.drop_first();
        lemma_free_list_bounds(h, h[cells[0] + 1 as int], rest);
        assert forall|i: int| 0 <= i < cells.len() implies #[trigger] cells[i] + 1 < h.len() by {
            if i > 0 {
                assert(cells[i] == rest[i - 1]);
            }
        }
    }
}

/// A free list reads only the tail slots of its cells.
pub proof fn lemma_free_list_frame<V: Value>(h: Seq<V>, g: Seq<V>, start: V, cells: Seq<nat>)
    requires
        free_list(h, start, cells),
        g.len() == h.len(),
        forall|i: int| 0 <= i < cells.len() ==> g[cells[i] + 1 as int] == h[#[trigger] cells[i] + 1 as int],
    ensures
        free_list(g, start, cells),
    decreases cells.len(),
{
    if cells.len() > 0 {
        let rest = cells.drop_first();
        assert forall|i: int| 0 <= i < rest.len() implies g[rest[i] + 1 as int] == h[#[trigger] rest[i] + 1 as int] by {
            assert(rest[i] == cells[i + 1]);
        }
        lemma_free_list_frame(h, g, h[cells[0] + 1 as int], rest);
    }
}

/// Which cells are free after the sweep depends only on which head slots
/// are marked.
pub proof fn lemma_last_free_same<V: Value>(ha: Seq<V>, hb: Seq<V>, k: nat)
    requires
        2 * k <= ha.len(),
        ha.len() == hb.len(),
        forall|c: int|
            0 <= c < 2 * k && c % 2 == 0 ==> (#[trigger] ha[c]).is_marked_spec()
                == hb[c].is_marked_spec(),
    ensures
        last_free(ha, k) == last_free(hb, k),
    decreases k,
{
    if k > 0 {
        lemma_last_free_same(ha, hb, (k - 1) as nat);
        assert(ha[2 * (k - 1)].is_marked_spec() == hb[2 * (k - 1)].is_marked_spec());
    }
}

} // verus!
