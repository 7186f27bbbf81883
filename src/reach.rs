//! The graph of slots that the collector walks, and reachability in it.

use crate::cons::slot_of;
use crate::value::Value;
use vstd::prelude::*;

verus! {

/// Slot `s` follows slot `t` in the graph that the collector walks: the tail
/// follows the head of its cell, and the slot that a pointer designates
/// follows the slot that holds the pointer.
pub open spec fn edge<V: Value>(h: Seq<V>, t: nat, s: nat) -> bool {
    ||| t % 2 == 0 && s == t + 1
    ||| t < h.len() && h[t as int].is_pointer_spec() && s == slot_of(h[t as int])
}

/// `path` is a walk from the slot that `root` designates along edges.
pub open spec fn is_path<V: Value>(h: Seq<V>, root: V, path: Seq<nat>) -> bool {
    &&& path.len() > 0
    &&& root.is_pointer_spec()
    &&& path[0] == slot_of(root)
    &&& forall|k: int| 0 <= k < path.len() - 1 ==> edge(h, #[trigger] path[k], path[k + 1])
}

/// Slot `s` is reachable from `root`.
pub open spec fn reachable<V: Value>(h: Seq<V>, root: V, s: nat) -> bool {
    exists|path: Seq<nat>| #[trigger] is_path(h, root, path) && path.last() == s
}

/// A slot that follows a reachable slot is reachable.
pub proof fn lemma_reach_step<V: Value>(h: Seq<V>, root: V, t: nat, s: nat)
    requires
        reachable(h, root, t),
        edge(h, t, s),
    ensures
        reachable(h, root, s),
{
    let path = choose|path: Seq<nat>| #[trigger] is_path(h, root, path) && path.last() == t;
    let longer = path.push(s);
    assert forall|k: int| 0 <= k < longer.len() - 1 implies edge(h, #[trigger] longer[k], longer[k + 1]) by {
        if k < path.len() - 1 {
            assert(longer[k] == path[k] && longer[k + 1] == path[k + 1]);
        }
    }
    assert(is_path(h, root, longer));
}

/// Reachability carries from one heap to another that agrees with it on the
/// slots that the second reaches.
pub proof fn lemma_reach_transfer<V: Value>(
    ha: Seq<V>,
    hb: Seq<V>,
    root: V,
    path: Seq<nat>,
    k: int,
)
    requires
        is_path(ha, root, path),
        0 <= k < path.len(),
        ha.len() == hb.len(),
        forall|s: nat| #[trigger] reachable(hb, root, s) && s < hb.len() ==> ha[s as int] == hb[s as int],
    ensures
        reachable(hb, root, path[k]),
    decreases k,
{
    if k == 0 {
        lemma_reach_root(hb, root);
    } else {
        lemma_reach_transfer(ha, hb, root, path, k - 1);
        let t = path[k - 1];
        assert(edge(ha, t, path[k]));
        lemma_reach_step(hb, root, t, path[k]);
    }
}

/// The slot that the root designates is reachable.
pub proof fn lemma_reach_root<V: Value>(h: Seq<V>, root: V)
    requires
        root.is_pointer_spec(),
    ensures
        reachable(h, root, slot_of(root)),
{
    assert(is_path(h, root, seq![slot_of(root)]));
}

} // verus!
