//! The bookkeeping of the pointer-reversal marking, and why the marking is
//! complete and leaves the heap as it found it, on a heap whose reachable
//! pointers all designate cells.

use crate::cons::{slot_of, tag_of};
use crate::reach::{edge, is_path, reachable};
use crate::sweep::unmarked;
use crate::value::Value;
use vstd::prelude::*;

verus! {

/// `h` is `h0` after a marking from `root`: a slot left unmarked is
/// untouched, and a slot marked now was marked before or is reachable.
pub open spec fn marked_from<V: Value>(h0: Seq<V>, root: V, h: Seq<V>) -> bool {
    &&& h.len() == h0.len()
    &&& forall|s: int| 0 <= s < h.len() && !(#[trigger] h[s]).is_marked_spec() ==> h[s] == h0[s]
    &&& forall|s: int|
        0 <= s < h.len() && (#[trigger] h[s]).is_marked_spec() ==> h0[s].is_marked_spec()
            || reachable(h0, root, s as nat)
}

/// How many slots are not marked.
pub open spec fn count_unmarked<V: Value>(h: Seq<V>) -> nat
    decreases h.len(),
{
    if h.len() == 0 {
        0
    } else {
        count_unmarked(h.drop_last()) + if h.last().is_marked_spec() {
            0nat
        } else {
            1nat
        }
    }
}

/// Marking a slot lowers the count by one if it was unmarked, and keeps it
/// otherwise.
pub proof fn lemma_count_update<V: Value>(h: Seq<V>, i: int, v: V)
    requires
        0 <= i < h.len(),
        v.is_marked_spec(),
    ensures
        h[i].is_marked_spec() ==> count_unmarked(h.update(i, v)) == count_unmarked(h),
        !h[i].is_marked_spec() ==> count_unmarked(h.update(i, v)) + 1 == count_unmarked(h),
    decreases h.len(),
{
    let u = h.update(i, v);
    if i == h.len() - 1 {
        assert(u.drop_last() =~= h.drop_last());
    } else {
        assert(u.drop_last() =~= h.drop_last().update(i, v));
        lemma_count_update(h.drop_last(), i, v);
    }
}

/// The slots on the way back to the root during the marking: each holds,
/// marked, a pointer to the slot before it, the first one a non-pointer;
/// `previous` points to the last one.
pub open spec fn return_path<V: Value>(h: Seq<V>, stack: Seq<nat>, previous: V) -> bool {
    &&& forall|k: int|
        0 <= k < stack.len() ==> #[trigger] stack[k] < h.len() && h[stack[k] as int].is_marked_spec()
    &&& forall|k: int|
        1 <= k < stack.len() ==> h[#[trigger] stack[k] as int].is_pointer_spec() && slot_of(
            h[stack[k] as int],
        ) == stack[k - 1]
    &&& stack.len() > 0 ==> !h[stack[0] as int].is_pointer_spec()
    &&& previous.is_pointer_spec() == (stack.len() > 0)
    &&& stack.len() > 0 ==> slot_of(previous) == stack.last()
    &&& forall|i: int, j: int| 0 <= i < j < stack.len() ==> stack[i] != stack[j]
}

/// With no root and no mark before, a marking marks nothing.
pub proof fn lemma_marked_from_nothing<V: Value>(h0: Seq<V>, root: V, h: Seq<V>)
    requires
        marked_from(h0, root, h),
        !root.is_pointer_spec(),
        unmarked(h0),
    ensures
        h == h0,
{
    assert forall|s: int| 0 <= s < h.len() implies h[s] == h0[s] by {
        if h[s].is_marked_spec() {
            assert(!reachable(h0, root, s as nat));
        }
    }
    assert(h =~= h0);
}

/// The pointer designates the head slot of a cell, and its slot index is read
/// from the payload without loss.
pub open spec fn designates_cell<V: Value>(v: V) -> bool {
    &&& (v.pointer_spec() as nat) / 256 <= usize::MAX
    &&& ((v.pointer_spec() as nat) / 256) % 2 == 0
}

/// Every pointer that the root reaches, the root included, designates the
/// head slot of a cell.
pub open spec fn sound<V: Value>(h: Seq<V>, root: V) -> bool {
    &&& root.is_pointer_spec() ==> designates_cell(root)
    &&& forall|s: nat|
        #[trigger] reachable(h, root, s) && s < h.len() && h[s as int].is_pointer_spec()
            ==> designates_cell(h[s as int])
}

/// Every slot that the root reaches lies in the heap: neither the root nor a
/// pointer in a reachable slot designates a slot past the heap's end.
pub open spec fn in_heap<V: Value>(h: Seq<V>, root: V) -> bool {
    forall|s: nat| #[trigger] reachable(h, root, s) ==> s < h.len()
}

/// The heap before a marking that this module speaks of: no slot marked,
/// cells paired, every slot index within a `usize`, and sound from the root.
pub open spec fn marking_start<V: Value>(h0: Seq<V>, root: V) -> bool {
    &&& unmarked(h0)
    &&& h0.len() % 2 == 0
    &&& h0.len() <= usize::MAX
    &&& sound(h0, root)
}

/// The heap after a complete marking: the slots the root reaches are marked,
/// the others untouched.
pub open spec fn marked_reachable<V: Value>(h0: Seq<V>, root: V) -> Seq<V> {
    Seq::new(
        h0.len(),
        |s: int|
            if reachable(h0, root, s as nat) {
                h0[s].mark_spec(true)
            } else {
                h0[s]
            },
    )
}

/// Slot `n` is where the walk goes from slot `s` of the return path: the
/// child of `s`, or the child's tail once the child is marked.
pub open spec fn next_ok<V: Value>(h0: Seq<V>, h: Seq<V>, s: nat, n: nat) -> bool {
    let ch = slot_of(h0[s as int]);
    ||| n == ch
    ||| n == ch + 1 && h[ch as int].is_marked_spec()
}

/// The edge from the marked slot `s` to `u` needs no more work: `u` is
/// marked, or is the current slot, or is the tail of a head slot that is on
/// the return path or current, to be visited on the way back.
pub open spec fn covered<V: Value>(h: Seq<V>, stack: Seq<nat>, c: nat, s: nat, u: nat) -> bool {
    ||| u < h.len() && h[u as int].is_marked_spec()
    ||| u == c
    ||| s % 2 == 0 && u == s + 1 && (stack.contains(s) || s == c)
}

/// What holds at each turn of the marking of a sound heap `h0`: `h` is the
/// heap now, `stack` the return path, and `cur` the pointer to the current
/// slot.
#[verifier::opaque]
pub open spec fn walk_inv<V: Value>(
    h0: Seq<V>,
    root: V,
    h: Seq<V>,
    stack: Seq<nat>,
    previous: V,
    cur: V,
) -> bool {
    let c = slot_of(cur);
    let r = slot_of(root);
    &&& h.len() == h0.len()
    &&& forall|s: int|
        0 <= s < h.len() && !stack.contains(s as nat) ==> (#[trigger] h[s] == if h[s].is_marked_spec() {
            h0[s].mark_spec(true)
        } else {
            h0[s]
        })
    &&& forall|k: int| 0 <= k < stack.len() ==> h0[#[trigger] stack[k] as int].is_pointer_spec()
    &&& forall|k: int| 0 <= k < stack.len() - 1 ==> next_ok(h0, h, #[trigger] stack[k], stack[k + 1])
    &&& stack.len() > 0 ==> next_ok(h0, h, stack.last(), c) && tag_of(cur) == tag_of(
        h0[stack.last() as int],
    )
    &&& stack.len() > 0 ==> (stack[0] == r || stack[0] == r + 1 && h[r as int].is_marked_spec())
    &&& stack.len() == 0 ==> (c == r || c == r + 1 && h[r as int].is_marked_spec())
    &&& forall|k: int|
        2 <= k < stack.len() ==> tag_of(h[#[trigger] stack[k] as int]) == tag_of(
            h0[stack[k - 2] as int],
        )
    &&& stack.len() >= 2 ==> tag_of(previous) == tag_of(h0[stack[stack.len() - 2] as int])
    &&& h[r as int].is_marked_spec() || c == r
    &&& r < h.len() || c == r
    &&& forall|s: nat, u: nat|
        s < h.len() && h[s as int].is_marked_spec() && #[trigger] edge(h0, s, u) ==> covered(
            h,
            stack,
            c,
            s,
            u,
        )
}

/// Every slot along a path from the root is reachable.
pub proof fn lemma_path_reachable<V: Value>(h: Seq<V>, root: V, path: Seq<nat>, k: int)
    requires
        is_path(h, root, path),
        0 <= k < path.len(),
    ensures
        reachable(h, root, path[k]),
{
    let prefix = path.subrange(0, k + 1);
    assert(prefix.last() == path[k]);
    assert forall|j: int| 0 <= j < prefix.len() - 1 implies edge(
        h,
        #[trigger] prefix[j],
        prefix[j + 1],
    ) by {
        assert(prefix[j] == path[j] && prefix[j + 1] == path[j + 1]);
    }
    assert(is_path(h, root, prefix));
}

/// The child of a reachable slot that holds a pointer is a head slot, read
/// without loss.
proof fn lemma_child<V: Value>(h0: Seq<V>, root: V, s: nat)
    requires
        marking_start(h0, root),
        reachable(h0, root, s),
        s < h0.len(),
        h0[s as int].is_pointer_spec(),
    ensures
        slot_of(h0[s as int]) == (h0[s as int].pointer_spec() as nat) / 256,
        slot_of(h0[s as int]) % 2 == 0,
{
}

/// The invariant holds before the first turn.
pub proof fn lemma_walk_start<V: Value>(h0: Seq<V>, root: V, zero: V)
    requires
        marking_start(h0, root),
        root.is_pointer_spec(),
    ensures
        walk_inv(h0, root, h0, Seq::empty(), zero, root),
{
    reveal(walk_inv);
}

/// Marking a current slot that holds no pointer keeps the invariant.
pub proof fn lemma_walk_leaf<V: Value>(
    h0: Seq<V>,
    root: V,
    h: Seq<V>,
    stack: Seq<nat>,
    previous: V,
    cur: V,
)
    requires
        marking_start(h0, root),
        walk_inv(h0, root, h, stack, previous, cur),
        return_path(h, stack, previous),
        slot_of(cur) < h.len(),
        !h[slot_of(cur) as int].is_marked_spec(),
        !h[slot_of(cur) as int].is_pointer_spec(),
    ensures
        walk_inv(
            h0,
            root,
            h.update(slot_of(cur) as int, h[slot_of(cur) as int].mark_spec(true)),
            stack,
            previous,
            cur,
        ),
{
    reveal(walk_inv);
    let c = slot_of(cur);
    let v = h[c as int];
    let h2 = h.update(c as int, v.mark_spec(true));
    V::lemma_mark(v, true);
    assert(!stack.contains(c)) by {
        if stack.contains(c) {
            let k = choose|k: int| 0 <= k < stack.len() && stack[k] == c;
            assert(h[stack[k] as int].is_marked_spec());
        }
    }
    assert(v == h0[c as int]);
    assert forall|x: int| 0 <= x < h.len() && h[x].is_marked_spec() implies h2[x].is_marked_spec() by {}
    assert forall|s: nat, u: nat|
        s < h2.len() && h2[s as int].is_marked_spec() && #[trigger] edge(h0, s, u) implies covered(
        h2,
        stack,
        c,
        s,
        u,
    ) by {
        if s != c {
            assert(covered(h, stack, c, s, u));
        }
    }
    assert forall|k: int| 2 <= k < stack.len() implies tag_of(h2[#[trigger] stack[k] as int])
        == tag_of(h0[stack[k - 2] as int]) by {
        assert(stack[k] != c);
    }
    assert forall|s: int|
        0 <= s < h2.len() && !stack.contains(s as nat) implies (#[trigger] h2[s] == if h2[s].is_marked_spec() {
        h0[s].mark_spec(true)
    } else {
        h0[s]
    }) by {
        if s != c {
            assert(h2[s] == h[s]);
        }
    }
}

/// Going down into the child of the current slot, with the pointer to the
/// current slot saved in its place, keeps the invariant.
pub proof fn lemma_walk_descend<V: Value>(
    h0: Seq<V>,
    root: V,
    h: Seq<V>,
    stack: Seq<nat>,
    previous: V,
    cur: V,
)
    requires
        marking_start(h0, root),
        walk_inv(h0, root, h, stack, previous, cur),
        return_path(h, stack, previous),
        slot_of(cur) < h.len(),
        !h[slot_of(cur) as int].is_marked_spec(),
        h[slot_of(cur) as int].is_pointer_spec(),
    ensures
        walk_inv(
            h0,
            root,
            h.update(slot_of(cur) as int, previous.mark_spec(true)),
            stack.push(slot_of(cur)),
            cur,
            h[slot_of(cur) as int],
        ),
{
    reveal(walk_inv);
    let c = slot_of(cur);
    let v = h[c as int];
    let h2 = h.update(c as int, previous.mark_spec(true));
    let stack2 = stack.push(c);
    V::lemma_mark(previous, true);
    assert(!stack.contains(c)) by {
        if stack.contains(c) {
            let k = choose|k: int| 0 <= k < stack.len() && stack[k] == c;
            assert(h[stack[k] as int].is_marked_spec());
        }
    }
    assert(v == h0[c as int]);
    assert forall|x: int| 0 <= x < h.len() && h[x].is_marked_spec() implies h2[x].is_marked_spec() by {}
    assert forall|x: nat| #[trigger] stack2.contains(x) == (stack.contains(x) || x == c) by {
        if stack2.contains(x) {
            let k = choose|k: int| 0 <= k < stack2.len() && stack2[k] == x;
            if k < stack.len() {
                assert(stack[k] == x);
            }
        }
        if stack.contains(x) {
            let k = choose|k: int| 0 <= k < stack.len() && stack[k] == x;
            assert(stack2[k] == x);
        }
        if x == c {
            assert(stack2[stack.len() as int] == x);
        }
    }
    assert forall|s: nat, u: nat|
        s < h2.len() && h2[s as int].is_marked_spec() && #[trigger] edge(h0, s, u) implies covered(
        h2,
        stack2,
        slot_of(v),
        s,
        u,
    ) by {
        if s != c {
            assert(covered(h, stack, c, s, u));
        }
    }
    assert forall|k: int| 0 <= k < stack2.len() implies h0[#[trigger] stack2[k] as int].is_pointer_spec() by {
        if k < stack.len() {
            assert(stack2[k] == stack[k]);
        }
    }
    assert forall|k: int| 0 <= k < stack2.len() - 1 implies next_ok(
        h0,
        h2,
        #[trigger] stack2[k],
        stack2[k + 1],
    ) by {
        assert(stack2[k] == stack[k]);
        if k < stack.len() - 1 {
            assert(stack2[k + 1] == stack[k + 1]);
            assert(next_ok(h0, h, stack[k], stack[k + 1]));
        } else {
            assert(next_ok(h0, h, stack.last(), c));
        }
    }
    assert forall|k: int| 2 <= k < stack2.len() implies tag_of(h2[#[trigger] stack2[k] as int])
        == tag_of(h0[stack2[k - 2] as int]) by {
        if k < stack.len() {
            assert(stack2[k] == stack[k] && stack2[k - 2] == stack[k - 2]);
            assert(stack[k] != c);
        } else {
            assert(stack2[k - 2] == stack[stack.len() - 2]);
        }
    }
    if stack.len() > 0 {
        assert(stack2[stack2.len() - 2] == stack.last());
        assert(stack2[0] == stack[0]);
    }
    assert forall|s: int|
        0 <= s < h2.len() && !stack2.contains(s as nat) implies (#[trigger] h2[s] == if h2[s].is_marked_spec() {
        h0[s].mark_spec(true)
    } else {
        h0[s]
    }) by {
        assert(s != c);
        assert(h2[s] == h[s]);
    }
}

/// Moving from a marked head slot to its tail keeps the invariant.
pub proof fn lemma_walk_advance<V: Value>(
    h0: Seq<V>,
    root: V,
    h: Seq<V>,
    stack: Seq<nat>,
    previous: V,
    cur: V,
    next: V,
)
    requires
        marking_start(h0, root),
        root.is_pointer_spec(),
        walk_inv(h0, root, h, stack, previous, cur),
        return_path(h, stack, previous),
        forall|k: int| 0 <= k < stack.len() ==> reachable(h0, root, #[trigger] stack[k]),
        slot_of(cur) < h.len(),
        slot_of(cur) % 2 == 0,
        h[slot_of(cur) as int].is_marked_spec(),
        next.is_pointer_spec(),
        slot_of(next) == slot_of(cur) + 1,
        tag_of(next) == tag_of(cur),
    ensures
        walk_inv(h0, root, h, stack, previous, next),
{
    reveal(walk_inv);
    let c = slot_of(cur);
    assert(designates_cell(root));
    if stack.len() > 0 {
        let top = stack.last();
        assert(reachable(h0, root, stack[stack.len() - 1]));
        assert(stack[stack.len() - 1] < h.len());
        assert(h0[stack[stack.len() - 1] as int].is_pointer_spec());
        lemma_child(h0, root, top);
    }
    assert forall|s: nat, u: nat|
        s < h.len() && h[s as int].is_marked_spec() && #[trigger] edge(h0, s, u) implies covered(
        h,
        stack,
        slot_of(next),
        s,
        u,
    ) by {
        assert(covered(h, stack, c, s, u));
    }
}

/// The value that going back up writes is the one that the slot held before
/// the marking, marked.
proof fn lemma_pop_restored<V: Value>(
    h0: Seq<V>,
    root: V,
    h: Seq<V>,
    stack: Seq<nat>,
    previous: V,
    cur: V,
    restored: V,
)
    requires
        marking_start(h0, root),
        walk_inv(h0, root, h, stack, previous, cur),
        return_path(h, stack, previous),
        forall|k: int| 0 <= k < stack.len() ==> reachable(h0, root, #[trigger] stack[k]),
        stack.len() > 0,
        slot_of(cur) % 2 == 1,
        restored.is_pointer_spec(),
        restored.is_marked_spec(),
        restored.pointer_spec() == (slot_of(cur) - 1) * 256 + tag_of(cur),
    ensures
        restored == h0[stack.last() as int].mark_spec(true),
{
    reveal(walk_inv);
    let p = stack.last();
    let t = stack.len() - 1;
    assert(reachable(h0, root, stack[t]));
    assert(stack[t] < h.len());
    assert(h0[stack[t] as int].is_pointer_spec());
    lemma_child(h0, root, p);
    let w = h0[p as int];
    V::lemma_mark(w, true);
    assert(w.pointer_spec() as nat == (w.pointer_spec() as nat / 256) * 256 + w.pointer_spec() as nat
        % 256);
    V::lemma_pointer_eq(restored, w.mark_spec(true));
}

/// Going back up from a marked tail slot, restoring the pointer that led
/// down, keeps the invariant; the restored value is the one that the slot
/// held before the marking, marked.
#[verifier::rlimit(40)]
pub proof fn lemma_walk_pop<V: Value>(
    h0: Seq<V>,
    root: V,
    h: Seq<V>,
    stack: Seq<nat>,
    previous: V,
    cur: V,
    restored: V,
)
    requires
        marking_start(h0, root),
        root.is_pointer_spec(),
        walk_inv(h0, root, h, stack, previous, cur),
        return_path(h, stack, previous),
        forall|k: int| 0 <= k < stack.len() ==> reachable(h0, root, #[trigger] stack[k]),
        stack.len() > 0,
        slot_of(cur) < h.len(),
        slot_of(cur) % 2 == 1,
        h[slot_of(cur) as int].is_marked_spec(),
        restored.is_pointer_spec(),
        restored.is_marked_spec(),
        restored.pointer_spec() == (slot_of(cur) - 1) * 256 + tag_of(cur),
    ensures
        restored == h0[stack.last() as int].mark_spec(true),
        walk_inv(
            h0,
            root,
            h.update(stack.last() as int, restored),
            stack.drop_last(),
            h[stack.last() as int],
            previous,
        ),
{
    reveal(walk_inv);
    let c = slot_of(cur);
    let p = stack.last();
    let t = stack.len() - 1;
    let h2 = h.update(p as int, restored);
    let stack2 = stack.drop_last();
    lemma_pop_restored(h0, root, h, stack, previous, cur, restored);
    assert(h[stack[t] as int].is_marked_spec());
    assert forall|x: int| 0 <= x < h.len() && h[x].is_marked_spec() implies h2[x].is_marked_spec() by {}
    assert forall|x: nat| #[trigger] stack2.contains(x) == (stack.contains(x) && x != p) by {
        if stack2.contains(x) {
            let k = choose|k: int| 0 <= k < stack2.len() && stack2[k] == x;
            assert(stack[k] == x);
            assert(stack[k] != stack[t]);
        }
        if stack.contains(x) && x != p {
            let k = choose|k: int| 0 <= k < stack.len() && stack[k] == x;
            assert(k != t);
            assert(stack2[k] == x);
        }
    }
    assert forall|s: nat, u: nat|
        s < h2.len() && h2[s as int].is_marked_spec() && #[trigger] edge(h0, s, u) implies covered(
        h2,
        stack2,
        p,
        s,
        u,
    ) by {
        assert(covered(h, stack, c, s, u));
    }
    assert forall|k: int| 0 <= k < stack2.len() implies h0[#[trigger] stack2[k] as int].is_pointer_spec() by {
        assert(stack2[k] == stack[k]);
    }
    assert forall|k: int| 0 <= k < stack2.len() - 1 implies next_ok(
        h0,
        h2,
        #[trigger] stack2[k],
        stack2[k + 1],
    ) by {
        assert(stack2[k] == stack[k] && stack2[k + 1] == stack[k + 1]);
        assert(next_ok(h0, h, stack[k], stack[k + 1]));
    }
    assert forall|k: int| 2 <= k < stack2.len() implies tag_of(h2[#[trigger] stack2[k] as int])
        == tag_of(h0[stack2[k - 2] as int]) by {
        assert(stack2[k] == stack[k] && stack2[k - 2] == stack[k - 2]);
        assert(stack[k] != stack[t]);
    }
    if t > 0 {
        assert(next_ok(h0, h, stack[t - 1], stack[t]));
        assert(stack2.last() == stack[t - 1]);
        assert(stack2[0] == stack[0]);
    }
    if t >= 2 {
        assert(stack2[stack2.len() - 2] == stack[t - 2]);
        assert(tag_of(h[stack[t] as int]) == tag_of(h0[stack[t - 2] as int]));
    }
    assert forall|s: int|
        0 <= s < h2.len() && !stack2.contains(s as nat) implies (#[trigger] h2[s] == if h2[s].is_marked_spec() {
        h0[s].mark_spec(true)
    } else {
        h0[s]
    }) by {
        if s != p {
            assert(h2[s] == h[s]);
        }
    }
}

/// Once the walk is back at the root's cell with nothing left to do, every
/// slot along a path from the root is marked.
proof fn lemma_path_marked<V: Value>(
    h0: Seq<V>,
    root: V,
    h: Seq<V>,
    cur: V,
    path: Seq<nat>,
    k: int,
)
    requires
        marking_start(h0, root),
        walk_inv(h0, root, h, Seq::empty(), root, cur),
        slot_of(cur) < h.len(),
        slot_of(cur) % 2 == 1,
        h[slot_of(cur) as int].is_marked_spec(),
        is_path(h0, root, path),
        0 <= k < path.len(),
    ensures
        path[k] < h.len(),
        h[path[k] as int].is_marked_spec(),
    decreases k,
{
    reveal(walk_inv);
    if k > 0 {
        lemma_path_marked(h0, root, h, cur, path, k - 1);
        assert(edge(h0, path[k - 1], path[k]));
        assert(covered(h, Seq::empty(), slot_of(cur), path[k - 1], path[k]));
    }
}

/// When the walk ends, the heap is `h0` with exactly the reachable slots
/// marked.
pub proof fn lemma_walk_finish<V: Value>(
    h0: Seq<V>,
    root: V,
    h: Seq<V>,
    previous: V,
    cur: V,
)
    requires
        marking_start(h0, root),
        root.is_pointer_spec(),
        marked_from(h0, root, h),
        walk_inv(h0, root, h, Seq::empty(), previous, cur),
        slot_of(cur) < h.len(),
        slot_of(cur) % 2 == 1,
        h[slot_of(cur) as int].is_marked_spec(),
    ensures
        h == marked_reachable(h0, root),
        in_heap(h0, root),
{
    reveal(walk_inv);
    assert forall|s: nat| #[trigger] reachable(h0, root, s) implies s < h0.len() by {
        let path = choose|path: Seq<nat>| #[trigger] is_path(h0, root, path) && path.last() == s;
        lemma_path_marked(h0, root, h, cur, path, path.len() - 1);
    }
    assert(walk_inv(h0, root, h, Seq::empty(), root, cur));
    assert forall|s: int| 0 <= s < h.len() implies h[s] == marked_reachable(h0, root)[s] by {
        assert(!Seq::<nat>::empty().contains(s as nat));
        if reachable(h0, root, s as nat) {
            let path = choose|path: Seq<nat>| #[trigger] is_path(h0, root, path) && path.last() == s;
            lemma_path_marked(h0, root, h, cur, path, path.len() - 1);
        } else if h[s].is_marked_spec() {
            assert(!h0[s].is_marked_spec());
        }
    }
    assert(h =~= marked_reachable(h0, root));
}

/// In a sound heap, a tail slot is reached only through its head slot.
pub proof fn lemma_reachable_tail<V: Value>(h: Seq<V>, root: V, s: nat)
    requires
        marking_start(h, root),
        in_heap(h, root),
        reachable(h, root, s),
        s % 2 == 1,
    ensures
        reachable(h, root, (s - 1) as nat),
{
    let path = choose|path: Seq<nat>| #[trigger] is_path(h, root, path) && path.last() == s;
    assert(designates_cell(root));
    let k = path.len() - 1;
    assert(k > 0);
    let t = path[k - 1];
    assert(edge(h, t, path[k]));
    let prefix = path.subrange(0, k);
    assert forall|j: int| 0 <= j < prefix.len() - 1 implies edge(
        h,
        #[trigger] prefix[j],
        prefix[j + 1],
    ) by {
        assert(prefix[j] == path[j] && prefix[j + 1] == path[j + 1]);
    }
    assert(is_path(h, root, prefix));
    assert(reachable(h, root, t));
    assert(t < h.len());
    if !(t % 2 == 0 && s == t + 1) {
        assert(designates_cell(h[t as int]));
    }
}

} // verus!
