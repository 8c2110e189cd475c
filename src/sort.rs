use vstd::prelude::*;
use vstd::std_specs::cmp::PartialOrdSpec;

use crate::heap::{
    heap_from,
    in_subtree,
    is_heap,
    lemma_child_of_parent,
    lemma_heap_from_leaves,
    lemma_in_subtree_not_before,
    lemma_in_subtree_of_root,
    lemma_root_is_max,
    parent,
};
use crate::laws::lemma_short_input_unchanged;
use crate::order::{
    comparator_lt,
    is_comparator,
    lemma_swap_multiset,
    ord_lt,
    sorted_by,
    strict_weak_order,
};
use crate::sift::{make_sift_down, SiftDown};

verus! {

/// Every element of `s` satisfies `p`.
pub open spec fn all_satisfy<T>(s: Seq<T>, p: spec_fn(T) -> bool) -> bool {
    forall|i: int| 0 <= i < s.len() ==> p(#[trigger] s[i])
}

/// A property of every element carries over to any rearrangement.
pub proof fn lemma_all_satisfy_permutation<T>(s: Seq<T>, t: Seq<T>, p: spec_fn(T) -> bool)
    requires
        s.to_multiset() == t.to_multiset(),
        all_satisfy(s, p),
    ensures
        all_satisfy(t, p),
{
    broadcast use vstd::seq_lib::group_to_multiset_ensures;

    assert forall|j: int| 0 <= j < t.len() implies p(#[trigger] t[j]) by {
        assert(t.contains(t[j]));
        assert(t.to_multiset().count(t[j]) > 0);
        assert(s.contains(t[j]));
    }
}

/// Heap sort of `v` with the sift-down `s`: the heap is built bottom-up, then its
/// maximum is moved behind the shrinking heap region one step at a time.
fn heap_sort_with<T, S: SiftDown<T>>(v: &mut [T], s: &S)
    requires
        s.valid(),
    ensures
        final(v)@.to_multiset() == old(v)@.to_multiset(),
        sorted_by(final(v)@, s.less()),
        old(v)@.len() <= 1 ==> final(v)@ == old(v)@,
{
    proof {
        s.lemma_valid();
    }
    let ghost lt = s.less();
    let ghost n = s.arity();
    let ghost start = old(v)@;
    let len = v.len();
    proof {
        lemma_heap_from_leaves(v@, lt, n, len as int);
    }
    let mut i = len / 2;
    while i > 0
        invariant
            s.valid(),
            lt == s.less(),
            n == s.arity(),
            n >= 2,
            v@.len() == len,
            i <= len / 2,
            v@.to_multiset() == start.to_multiset(),
            heap_from(v@, lt, n, i as int, len as int),
        decreases i,
    {
        i = i - 1;
        let ghost before = v@;
        proof {
            assert forall|c: int|
                0 < c < len && in_subtree(#[trigger] parent(c, n), i as int, n) && parent(c, n)
                    != i implies !lt(before[parent(c, n)], before[c]) by {
                lemma_in_subtree_not_before(parent(c, n), i as int, n);
            }
        }
        s.sift_down(v, i);
        proof {
            assert forall|c: int| 0 < c < len && i <= #[trigger] parent(c, n) implies !lt(
                v@[parent(c, n)],
                v@[c],
            ) by {
                let p = parent(c, n);
                lemma_child_of_parent(c, n);
                if !in_subtree(p, i as int, n) {
                    assert(!in_subtree(c, i as int, n));
                    assert(p != i);
                }
            }
        }
    }
    let mut end = len;
    while end > 1
        invariant
            s.valid(),
            lt == s.less(),
            n == s.arity(),
            n >= 2,
            strict_weak_order(lt),
            v@.len() == len,
            end <= len,
            len > 0 ==> end >= 1,
            v@.to_multiset() == start.to_multiset(),
            is_heap(v@, lt, n, end as int),
            forall|a: int, b: int| end <= a < b < len ==> !lt(#[trigger] v@[b], #[trigger] v@[a]),
            forall|a: int, b: int| 0 <= a < end <= b < len ==> !lt(#[trigger] v@[b], #[trigger] v@[a]),
        decreases end,
    {
        let ghost s0 = v@;
        proof {
            assert forall|k: int| 0 <= k < end implies !lt(s0[0], #[trigger] s0[k]) by {
                lemma_root_is_max(s0, lt, n, end as int, k);
            }
        }
        v.swap(0, end - 1);
        end = end - 1;
        let ghost s1 = v@;
        proof {
            lemma_swap_multiset(s0, 0, end as int);
        }
        let ghost mut hf: Seq<T>;
        let ghost mut tf: Seq<T>;
        {
            let (head, tail) = v.split_at_mut(end);
            proof {
                assert forall|c: int| 0 < c < end && 1 <= #[trigger] parent(c, n) implies !lt(
                    head@[parent(c, n)],
                    head@[c],
                ) by {
                    assert(s0[parent(c, n)] == s1[parent(c, n)]);
                }
            }
            proof {
                assert forall|c: int|
                    0 < c < end && in_subtree(#[trigger] parent(c, n), 0, n) && parent(c, n)
                        != 0 implies !lt(head@[parent(c, n)], head@[c]) by {
                    lemma_child_of_parent(c, n);
                    assert(1 <= parent(c, n));
                }
            }
            s.sift_down(head, 0);
            proof {
                hf = head@;
                tf = tail@;
            }
        }
        proof {
            assert(v@ == hf + tf);
            assert(tf == s1.subrange(end as int, len as int));
            let h = v@.subrange(0, end as int);
            assert(h =~= hf);
            let t1 = s1.subrange(0, end as int);
            assert(v@ =~= h + s1.subrange(end as int, len as int));
            assert(s1 =~= t1 + s1.subrange(end as int, len as int));
            vstd::seq_lib::lemma_multiset_commutative(h, s1.subrange(end as int, len as int));
            vstd::seq_lib::lemma_multiset_commutative(t1, s1.subrange(end as int, len as int));
            assert forall|c: int| 0 < c < end && 0 <= #[trigger] parent(c, n) implies !lt(
                v@[parent(c, n)],
                v@[c],
            ) by {
                lemma_child_of_parent(c, n);
                lemma_in_subtree_of_root(parent(c, n), n);
                assert(hf[parent(c, n)] == h[parent(c, n)]);
                assert(hf[c] == h[c]);
                assert(h[parent(c, n)] == v@[parent(c, n)]);
                assert(h[c] == v@[c]);
            }
            // Every element left in the heap region was there before the swap.
            let below = |x: T| forall|b: int| end <= b < len ==> !lt(#[trigger] v@[b], x);
            assert forall|k: int| 0 <= k < t1.len() implies below(#[trigger] t1[k]) by {
                assert(t1[k] == s0[if k == 0 { end as int } else { k }]);
                assert forall|b: int| end <= b < len implies !lt(#[trigger] v@[b], t1[k]) by {
                    if b == end {
                        assert(v@[b] == s0[0]);
                    } else {
                        assert(v@[b] == s0[b]);
                    }
                }
            }
            lemma_all_satisfy_permutation(t1, h, below);
            assert forall|a: int, b: int| 0 <= a < end <= b < len implies !lt(
                #[trigger] v@[b],
                #[trigger] v@[a],
            ) by {
                assert(h[a] == v@[a]);
                assert(below(h[a]));
            }
            assert forall|a: int, b: int| end <= a < b < len implies !lt(
                #[trigger] v@[b],
                #[trigger] v@[a],
            ) by {
                if a == end {
                    assert(v@[a] == s0[0]);
                    assert(v@[b] == s0[b]);
                } else {
                    assert(v@[a] == s0[a]);
                    assert(v@[b] == s0[b]);
                }
            }
        }
    }
    proof {
        if len <= 1 {
            lemma_short_input_unchanged(start, v@);
        }
    }
}

/// Sorts `v` in place with the sift-down `sift_down`. A slice of an element type
/// that holds no information is left as it is: no swap is made.
pub fn heap_n_sort<T, S: SiftDown<T>>(v: &mut [T], sift_down: S)
    requires
        sift_down.valid(),
    ensures
        final(v)@.to_multiset() == old(v)@.to_multiset(),
        vstd::layout::size_of::<T>() > 0 ==> sorted_by(final(v)@, sift_down.less()),
        vstd::layout::size_of::<T>() == 0 ==> final(v)@ == old(v)@,
        old(v)@.len() <= 1 ==> final(v)@ == old(v)@,
{
    if core::mem::size_of::<T>() == 0 {
        return ;
    }
    heap_sort_with(v, &sift_down);
}

/// Sorts `v` ascending in place with an `N`-ary heap, comparing by `is_less`:
/// the result is a rearrangement of `v` in which no element is less than one
/// before it, under the strict weak ordering that the comparator's answers
/// follow. A slice of an element type that holds no information is left as it is.
pub fn heapsort_by<T, const N: usize, F: Fn(&T, &T) -> bool>(v: &mut [T], is_less: F)
    requires
        N >= 2,
        is_comparator(is_less),
    ensures
        final(v)@.to_multiset() == old(v)@.to_multiset(),
        vstd::layout::size_of::<T>() > 0 ==> sorted_by(final(v)@, comparator_lt(is_less)),
        vstd::layout::size_of::<T>() == 0 ==> final(v)@ == old(v)@,
        old(v)@.len() <= 1 ==> final(v)@ == old(v)@,
{
    match make_sift_down::<T, N, F>(is_less) {
        Ok(sift_down) => heap_n_sort(v, sift_down),
        Err(_) => {},
    }
}

/// Sorts `v` ascending in place with an `N`-ary heap, by the type's own `<`,
/// which must be a strict weak ordering.
pub fn heapsort<T: Ord, const N: usize>(v: &mut [T])
    requires
        N >= 2,
        T::obeys_partial_cmp_spec(),
        strict_weak_order(ord_lt::<T>()),
    ensures
        final(v)@.to_multiset() == old(v)@.to_multiset(),
        vstd::layout::size_of::<T>() > 0 ==> sorted_by(final(v)@, ord_lt::<T>()),
        vstd::layout::size_of::<T>() == 0 ==> final(v)@ == old(v)@,
        old(v)@.len() <= 1 ==> final(v)@ == old(v)@,
{
    heap_n_sort(v, crate::sift::OrdSiftDown::<N>);
}

/// Sorts `v` ascending in place with a ternary heap whose children are compared
/// by a fixed decision tree.
pub fn heap_3_sort<T, F: Fn(&T, &T) -> bool>(v: &mut [T], is_less: F)
    requires
        is_comparator(is_less),
    ensures
        final(v)@.to_multiset() == old(v)@.to_multiset(),
        sorted_by(final(v)@, comparator_lt(is_less)),
        old(v)@.len() <= 1 ==> final(v)@ == old(v)@,
{
    heap_sort_with(v, &crate::special::TernarySiftDown { is_less });
}

/// Sorts `v` ascending in place with a binary heap.
pub fn std_heapsort<T, F: Fn(&T, &T) -> bool>(v: &mut [T], is_less: F)
    requires
        is_comparator(is_less),
    ensures
        final(v)@.to_multiset() == old(v)@.to_multiset(),
        sorted_by(final(v)@, comparator_lt(is_less)),
        old(v)@.len() <= 1 ==> final(v)@ == old(v)@,
{
    heap_sort_with(v, &crate::special::BinarySiftDown { is_less });
}

} // verus!
