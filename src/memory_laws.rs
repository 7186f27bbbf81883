//! What holds of a memory across its operations: a fresh free list, an
//! allocation, and collections.

use crate::cons::{index_limit, Cons};
use crate::error::Error;
use crate::marking::{
    designates_cell, in_heap, lemma_reachable_tail, marked_from, marked_reachable, marking_start, sound,
};
use crate::memory::{allocated, collected, popped, Memory};
use crate::reach::{is_path, lemma_reach_step, lemma_reach_transfer, reachable};
use crate::sweep::{
    free_list, last_free, lemma_free_list_bounds, lemma_free_list_frame, lemma_last_free_same,
    lemma_swept_chain, lemma_swept_unmarked, lemma_unmarked_cells, lemma_unmarked_cells_all, swept,
    swept_free, swept_slot, unmarked, unmarked_cells, zeroed,
};
use crate::value::Value;
use vstd::prelude::*;

verus! {

/// A fresh memory lists every cell on its free list, and no slot is marked.
pub proof fn law_new_free_list<V: Value>(n: nat)
    requires
        n % 2 == 0,
        n <= index_limit::<V>(),
        n <= usize::MAX,
    ensures
        unmarked(swept(zeroed::<V>(n))),
        free_list(swept(zeroed::<V>(n)), swept_free(zeroed::<V>(n)), unmarked_cells(zeroed::<V>(n), n / 2)),
        unmarked_cells(zeroed::<V>(n), n / 2).len() == n / 2,
        unmarked_cells(zeroed::<V>(n), n / 2).no_duplicates(),
{
    let h = zeroed::<V>(n);
    V::lemma_limits();
    V::lemma_from_number(0);
    lemma_swept_unmarked(h);
    lemma_swept_chain(h, n / 2);
    lemma_unmarked_cells(h, n / 2);
    lemma_unmarked_cells_all(h, n / 2);
}

/// Allocating from a free list of distinct cells fills the first cell with
/// the two values and leaves the rest of the list, without that cell.
pub proof fn law_allocate_pops<V: Value>(
    before: Memory<V>,
    car: V,
    cdr: V,
    after: Memory<V>,
    r: Result<Cons<V>, Error>,
    cells: Seq<nat>,
)
    requires
        popped(before, car, cdr, after, r),
        free_list(before.heap_spec(), before.free_spec(), cells),
        cells.len() > 0,
        cells.no_duplicates(),
        forall|i: int| 0 <= i < cells.len() ==> #[trigger] cells[i] % 2 == 0,
    ensures
        r.is_ok(),
        after.heap_spec()[r->Ok_0.index_spec() as int] == car,
        after.heap_spec()[r->Ok_0.index_spec() + 1] == cdr,
        free_list(after.heap_spec(), after.free_spec(), cells.drop_first()),
        !cells.drop_first().contains(r->Ok_0.index_spec() as nat),
{
    let i = cells[0];
    let h = before.heap_spec();
    let g = after.heap_spec();
    let rest = cells.drop_first();
    lemma_free_list_bounds(h, before.free_spec(), cells);
    assert forall|k: int| 0 <= k < rest.len() implies g[rest[k] + 1 as int] == h[#[trigger] rest[k] + 1 as int] by {
        assert(rest[k] == cells[k + 1]);
        assert(cells[k + 1] != cells[0]);
        assert(cells[k + 1] % 2 == 0);
    }
    lemma_free_list_frame(h, g, h[i + 1 as int], rest);
    if rest.contains(i) {
        let k = choose|k: int| 0 <= k < rest.len() && rest[k] == i;
        assert(cells[k + 1] == cells[0]);
    }
}

/// A successful allocation fills a cell with the two values and leaves a
/// free list without that cell, whether or not it had to collect first; when
/// it did not, the free list it took from must be one of distinct cells.
pub proof fn law_allocate_fills<V: Value>(
    before: Memory<V>,
    car: V,
    cdr: V,
    after: Memory<V>,
    r: Result<Cons<V>, Error>,
    cells: Seq<nat>,
)
    requires
        before.wf(),
        allocated(before, car, cdr, after, r),
        r.is_ok(),
        before.free_spec().is_pointer_spec() ==> free_list(before.heap_spec(), before.free_spec(), cells)
            && cells.no_duplicates() && forall|i: int|
            0 <= i < cells.len() ==> #[trigger] cells[i] % 2 == 0,
    ensures
        after.heap_spec()[r->Ok_0.index_spec() as int] == car,
        after.heap_spec()[r->Ok_0.index_spec() + 1] == cdr,
        exists|rest: Seq<nat>|
            #[trigger] free_list(after.heap_spec(), after.free_spec(), rest) && !rest.contains(
                r->Ok_0.index_spec() as nat,
            ),
{
    if before.free_spec().is_pointer_spec() {
        law_allocate_pops(before, car, cdr, after, r, cells);
    } else {
        let m = choose|m: Memory<V>|
            #[trigger] collected(before, m) && m.wf() && m.heap_spec().len()
                == before.heap_spec().len() && (m.free_spec().is_pointer_spec() ==> popped(
                m,
                car,
                cdr,
                after,
                r,
            )) && (!m.free_spec().is_pointer_spec() ==> r == Err::<Cons<V>, Error>(
                Error::OutOfMemory,
            ) && after == m);
        let h = choose|h: Seq<V>|
            #[trigger] marked_from(before.heap_spec(), before.root_spec(), h) && m.heap_spec()
                == swept(h) && m.free_spec() == swept_free(h);
        let n = h.len();
        lemma_swept_chain(h, n / 2);
        lemma_unmarked_cells(h, n / 2);
        let list = unmarked_cells(h, n / 2);
        assert(list.no_duplicates()) by {
            assert forall|i: int, j: int| 0 <= i < list.len() && 0 <= j < list.len() && i != j implies list[i]
                != list[j] by {
                if i < j {
                    assert(list[i] > list[j]);
                } else {
                    assert(list[j] > list[i]);
                }
            }
        }
        law_allocate_pops(m, car, cdr, after, r, list);
    }
}

/// After a collection from a heap with no mark, no slot is marked, and every
/// cell whose head slot the root does not reach is on the free list, once.
pub proof fn law_collect<V: Value>(before: Memory<V>, after: Memory<V>)
    requires
        before.wf(),
        unmarked(before.heap_spec()),
        collected(before, after),
    ensures
        unmarked(after.heap_spec()),
        exists|cells: Seq<nat>|
            #[trigger] free_list(after.heap_spec(), after.free_spec(), cells) && cells.no_duplicates()
                && forall|c: nat|
                c % 2 == 0 && c < before.heap_spec().len() && !reachable(
                    before.heap_spec(),
                    before.root_spec(),
                    c,
                ) ==> cells.contains(c),
{
    let h0 = before.heap_spec();
    let h = choose|h: Seq<V>|
        #[trigger] marked_from(h0, before.root_spec(), h) && after.heap_spec() == swept(h)
            && after.free_spec() == swept_free(h);
    let n = h.len();
    lemma_swept_unmarked(h);
    lemma_swept_chain(h, n / 2);
    lemma_unmarked_cells(h, n / 2);
    let cells = unmarked_cells(h, n / 2);
    assert forall|c: nat|
        c % 2 == 0 && c < h0.len() && !reachable(h0, before.root_spec(), c) implies cells.contains(
        c,
    ) by {
        assert(!h0[c as int].is_marked_spec());
    }
    assert(free_list(after.heap_spec(), after.free_spec(), cells));
}

/// After a collection of a sound heap with no mark, whose reachable slots
/// all lie in it, no slot is marked, every slot that the root reaches holds
/// what it held, and the free list holds, once each, exactly the cells whose
/// head slot the root does not reach.
pub proof fn law_collect_exact<V: Value>(h0: Seq<V>, root: V)
    requires
        marking_start(h0, root),
        in_heap(h0, root),
        h0.len() <= index_limit::<V>(),
    ensures
        unmarked(swept(marked_reachable(h0, root))),
        forall|s: int|
            0 <= s < h0.len() && reachable(h0, root, s as nat) ==> #[trigger] swept(
                marked_reachable(h0, root),
            )[s] == h0[s],
        free_list(
            swept(marked_reachable(h0, root)),
            swept_free(marked_reachable(h0, root)),
            unmarked_cells(marked_reachable(h0, root), h0.len() / 2),
        ),
        unmarked_cells(marked_reachable(h0, root), h0.len() / 2).no_duplicates(),
        forall|c: nat|
            c % 2 == 0 && c < h0.len() ==> (unmarked_cells(marked_reachable(h0, root), h0.len() / 2).contains(c)
                <==> !reachable(h0, root, c)),
{
    let hm = marked_reachable(h0, root);
    let n = h0.len();
    lemma_swept_unmarked(hm);
    lemma_swept_chain(hm, n / 2);
    lemma_unmarked_cells(hm, n / 2);
    let cells = unmarked_cells(hm, n / 2);
    assert forall|s: int| 0 <= s < h0.len() && reachable(h0, root, s as nat) implies #[trigger] swept(
        hm,
    )[s] == h0[s] by {
        V::lemma_unmark(h0[s]);
        let head = s - s % 2;
        if s % 2 == 1 {
            lemma_reachable_tail(h0, root, s as nat);
        }
        assert(reachable(h0, root, head as nat));
        V::lemma_mark(h0[head], true);
        assert(hm[head].is_marked_spec());
        assert(hm[s] == h0[s].mark_spec(true));
        assert(swept(hm)[s] == swept_slot(hm, s));
    }
    assert forall|c: nat| c % 2 == 0 && c < h0.len() implies (cells.contains(c) <==> !reachable(
        h0,
        root,
        c,
    )) by {
        V::lemma_mark(h0[c as int], true);
        if cells.contains(c) {
            let i = choose|i: int| 0 <= i < cells.len() && cells[i] == c;
            assert(!hm[cells[i] as int].is_marked_spec());
        }
    }
}

/// A collection of a sound heap with no mark, whose reachable slots lie in
/// it, leaves such a heap, from which the root reaches the same slots.
pub proof fn lemma_collected_reach<V: Value>(h0: Seq<V>, root: V)
    requires
        marking_start(h0, root),
        in_heap(h0, root),
        h0.len() <= index_limit::<V>(),
    ensures
        marking_start(swept(marked_reachable(h0, root)), root),
        in_heap(swept(marked_reachable(h0, root)), root),
        forall|s: nat|
            #[trigger] reachable(swept(marked_reachable(h0, root)), root, s) == reachable(
                h0,
                root,
                s,
            ),
{
    let hm1 = marked_reachable(h0, root);
    let h1 = swept(hm1);
    law_collect_exact(h0, root);
    lemma_swept_unmarked(hm1);
    assert forall|s: nat| #[trigger] reachable(h1, root, s) implies reachable(h0, root, s) by {
        let path = choose|path: Seq<nat>| #[trigger] is_path(h1, root, path) && path.last() == s;
        assert forall|x: nat| #[trigger] reachable(h0, root, x) && x < h0.len() implies h1[x as int]
            == h0[x as int] by {
            assert(swept(hm1)[x as int] == h0[x as int]);
        }
        lemma_reach_transfer(h1, h0, root, path, path.len() - 1);
    }
    assert forall|s: nat| #[trigger] reachable(h0, root, s) implies reachable(h1, root, s) by {
        let path = choose|path: Seq<nat>| #[trigger] is_path(h0, root, path) && path.last() == s;
        assert forall|x: nat| #[trigger] reachable(h1, root, x) && x < h1.len() implies h0[x as int]
            == h1[x as int] by {
            assert(reachable(h0, root, x));
            assert(swept(hm1)[x as int] == h0[x as int]);
        }
        lemma_reach_transfer(h0, h1, root, path, path.len() - 1);
    }
    assert(sound(h1, root)) by {
        assert forall|s: nat|
            #[trigger] reachable(h1, root, s) && s < h1.len() && h1[s as int].is_pointer_spec()
                implies designates_cell(h1[s as int]) by {
            assert(reachable(h0, root, s));
            assert(swept(hm1)[s as int] == h0[s as int]);
        }
    }
}

/// Collecting a sound heap with no mark, whose reachable slots lie in it, a
/// second time changes nothing: the heap and the free list are those of the
/// first collection.
pub proof fn law_collect_idempotent<V: Value>(h0: Seq<V>, root: V)
    requires
        marking_start(h0, root),
        in_heap(h0, root),
        h0.len() <= index_limit::<V>(),
    ensures
        marking_start(swept(marked_reachable(h0, root)), root),
        in_heap(swept(marked_reachable(h0, root)), root),
        swept(marked_reachable(swept(marked_reachable(h0, root)), root)) == swept(
            marked_reachable(h0, root),
        ),
        swept_free(marked_reachable(swept(marked_reachable(h0, root)), root)) == swept_free(
            marked_reachable(h0, root),
        ),
{
    let hm1 = marked_reachable(h0, root);
    let h1 = swept(hm1);
    law_collect_exact(h0, root);
    lemma_collected_reach(h0, root);
    let hm2 = marked_reachable(h1, root);
    let n = h0.len();
    assert forall|c: int| 0 <= c < 2 * (n / 2) && c % 2 == 0 implies (#[trigger] hm2[c]).is_marked_spec()
        == hm1[c].is_marked_spec() by {
        V::lemma_mark(h0[c], true);
        V::lemma_mark(h1[c], true);
        assert(!h1[c].is_marked_spec());
        assert(reachable(h1, root, c as nat) == reachable(h0, root, c as nat));
    }
    assert forall|k: nat| k <= n / 2 implies #[trigger] last_free(hm2, k) == last_free(hm1, k) by {
        lemma_last_free_same(hm2, hm1, k);
    }
    assert forall|s: int| 0 <= s < n implies #[trigger] swept(hm2)[s] == h1[s] by {
        let head = s - s % 2;
        V::lemma_mark(h0[head], true);
        V::lemma_mark(h1[head], true);
        assert(!h1[head].is_marked_spec());
        assert(reachable(h1, root, head as nat) == reachable(h0, root, head as nat));
        if reachable(h0, root, head as nat) {
            assert(reachable(h0, root, s as nat)) by {
                if s % 2 == 1 {
                    lemma_reach_step(h0, root, head as nat, s as nat);
                }
            }
            assert(reachable(h1, root, s as nat) == reachable(h0, root, s as nat));
            V::lemma_unmark(h0[s]);
            assert(h1[s] == h0[s]);
        } else {
            assert(last_free(hm2, (s / 2) as nat) == last_free(hm1, (s / 2) as nat));
        }
    }
    assert(swept(hm2) =~= h1);
    assert(last_free(hm2, n / 2) == last_free(hm1, n / 2));
}

} // verus!
