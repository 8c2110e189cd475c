use vstd::arithmetic::div_mod::{
    lemma_fundamental_div_mod,
    lemma_fundamental_div_mod_converse,
    lemma_mod_pos_bound,
};
use vstd::prelude::*;

use crate::order::{lemma_not_lt_trans, strict_weak_order};

verus! {

/// The parent of node `c` (for `c > 0`) in an `n`-ary heap laid out in an array:
/// the children of `p` are `n * p + 1 ..= n * p + n`.
pub open spec fn parent(c: int, n: nat) -> int {
    (c - 1) / (n as int)
}

/// Within the region `[0, end)` of `s`, every node at index `lo` or beyond is not
/// less than any of its children.
pub open spec fn heap_from<T>(s: Seq<T>, lt: spec_fn(T, T) -> bool, n: nat, lo: int, end: int) -> bool {
    forall|c: int| 0 < c < end && lo <= #[trigger] parent(c, n) ==> !lt(s[parent(c, n)], s[c])
}

/// The whole region `[0, end)` of `s` is a max-heap.
pub open spec fn is_heap<T>(s: Seq<T>, lt: spec_fn(T, T) -> bool, n: nat, end: int) -> bool {
    heap_from(s, lt, n, 0, end)
}

/// Each index of the children range of `p` has `p` as its parent.
pub proof fn lemma_parent_of_child(p: int, n: nat, c: int)
    requires
        n >= 1,
        n * p + 1 <= c <= n * p + n,
    ensures
        parent(c, n) == p,
{
    assert(c - 1 == p * (n as int) + (c - 1 - n * p)) by (nonlinear_arith);
    lemma_fundamental_div_mod_converse(c - 1, n as int, p, c - 1 - n * p);
}

/// A node lies in the children range of its parent, which comes before it.
pub proof fn lemma_child_of_parent(c: int, n: nat)
    requires
        n >= 1,
        c > 0,
    ensures
        n * parent(c, n) + 1 <= c <= n * parent(c, n) + n,
        0 <= parent(c, n) < c,
{
    lemma_fundamental_div_mod(c - 1, n as int);
    lemma_mod_pos_bound(c - 1, n as int);
    let p = parent(c, n);
    assert(p >= 0) by (nonlinear_arith)
        requires
            c - 1 == n * p + (c - 1) % (n as int),
            0 <= (c - 1) % (n as int) < n,
            n >= 1,
            c >= 1,
    ;
    assert(p <= n * p) by (nonlinear_arith)
        requires
            p >= 0,
            n >= 1,
    ;
}

/// In a binary or wider heap over `[0, len)`, no node at `len / 2` or beyond has
/// a child inside the region, so the heap order holds there trivially.
pub proof fn lemma_heap_from_leaves<T>(s: Seq<T>, lt: spec_fn(T, T) -> bool, n: nat, len: int)
    requires
        n >= 2,
        len >= 0,
    ensures
        heap_from(s, lt, n, len / 2, len),
{
    assert forall|c: int| 0 < c < len && len / 2 <= #[trigger] parent(c, n) implies !lt(
        s[parent(c, n)],
        s[c],
    ) by {
        lemma_child_of_parent(c, n);
        let p = parent(c, n);
        assert(n * p >= 2 * p) by (nonlinear_arith)
            requires
                n >= 2,
                p >= 0,
        ;
    }
}

/// The root of a heap is not less than any element of it.
pub proof fn lemma_root_is_max<T>(s: Seq<T>, lt: spec_fn(T, T) -> bool, n: nat, end: int, k: int)
    requires
        strict_weak_order(lt),
        n >= 1,
        is_heap(s, lt, n, end),
        0 <= k < end,
    ensures
        !lt(s[0], s[k]),
    decreases k,
{
    if k > 0 {
        lemma_child_of_parent(k, n);
        let p = parent(k, n);
        lemma_root_is_max(s, lt, n, end, p);
        lemma_not_lt_trans(lt, s[0], s[p], s[k]);
    }
}

#[via_fn]
proof fn in_subtree_decreases(c: int, node: int, n: nat) {
    if !(c <= node || c <= 0 || n == 0) {
        lemma_child_of_parent(c, n);
    }
}

/// Node `c` lies in the subtree rooted at `node`: it is `node`, or its parent
/// does.
pub open spec fn in_subtree(c: int, node: int, n: nat) -> bool
    decreases c,
    via in_subtree_decreases
{
    if c <= node || c <= 0 || n == 0 {
        c == node
    } else {
        in_subtree(parent(c, n), node, n)
    }
}

/// Within `s`, every node of the subtree of `node` is not less than any of its
/// children.
pub open spec fn subtree_heap<T>(s: Seq<T>, lt: spec_fn(T, T) -> bool, n: nat, node: int) -> bool {
    forall|c: int|
        0 < c < s.len() && in_subtree(#[trigger] parent(c, n), node, n) ==> !lt(s[parent(c, n)], s[c])
}

/// Within `s`, the subtrees of the children of `node` are heaps: the heap order
/// holds at every node of the subtree of `node` but `node` itself.
pub open spec fn subtree_heap_below<T>(s: Seq<T>, lt: spec_fn(T, T) -> bool, n: nat, node: int) -> bool {
    forall|c: int|
        0 < c < s.len() && in_subtree(#[trigger] parent(c, n), node, n) && parent(c, n) != node ==> !lt(
            s[parent(c, n)],
            s[c],
        )
}

/// A node of a subtree is not before its root.
pub proof fn lemma_in_subtree_not_before(c: int, node: int, n: nat)
    requires
        in_subtree(c, node, n),
    ensures
        c >= node,
    decreases c,
{
    if !(c <= node || c <= 0 || n == 0) {
        lemma_child_of_parent(c, n);
        lemma_in_subtree_not_before(parent(c, n), node, n);
    }
}

/// Every node belongs to the subtree of the root.
pub proof fn lemma_in_subtree_of_root(c: int, n: nat)
    requires
        c >= 0,
        n >= 1,
    ensures
        in_subtree(c, 0, n),
    decreases c,
{
    if c > 0 {
        lemma_child_of_parent(c, n);
        lemma_in_subtree_of_root(parent(c, n), n);
    }
}

} // verus!
