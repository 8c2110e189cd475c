use vstd::prelude::*;
use vstd::std_specs::cmp::PartialOrdSpec;

use crate::heap::{
    in_subtree,
    lemma_child_of_parent,
    lemma_in_subtree_not_before,
    lemma_parent_of_child,
    parent,
    subtree_heap,
    subtree_heap_below,
};
use crate::order::{
    comparator_lt,
    is_comparator,
    lemma_lt_asym,
    lemma_not_lt_trans,
    lemma_swap_multiset,
    ord_lt,
    strict_weak_order,
};

verus! {

/// A way of restoring the max-heap order at one node of an array-laid-out heap.
///
/// An implementation fixes the branching factor and the comparator, and says how
/// the greatest of a node's children is picked; the sifting itself is shared.
pub trait SiftDown<T>: Sized {
    /// The branching factor.
    spec fn arity(&self) -> nat;

    /// The strict ordering the comparator decides.
    spec fn less(&self) -> spec_fn(T, T) -> bool;

    /// The comparator can be called on any pair and is a strict weak ordering,
    /// and the branching factor is at least two.
    spec fn valid(&self) -> bool;

    proof fn lemma_valid(&self)
        requires
            self.valid(),
        ensures
            self.arity() >= 2,
            strict_weak_order(self.less()),
    ;

    /// The branching factor, at run time.
    fn branching(&self) -> (r: usize)
        requires
            self.valid(),
        ensures
            r as nat == self.arity(),
    ;

    /// Compares two elements with the comparator.
    fn is_less(&self, a: &T, b: &T) -> (r: bool)
        requires
            self.valid(),
        ensures
            r == (self.less())(*a, *b),
    ;

    /// Picks, among the children `first .. min(first + arity, v.len())`, one that
    /// no other child is greater than. By default the children are scanned from
    /// left to right, moving on to a child only when it is strictly greater than
    /// the best so far, so that among equal greatest children the leftmost is kept.
    fn greatest_child(&self, v: &[T], first: usize) -> (r: usize)
        requires
            self.valid(),
            first < v@.len(),
        ensures
            first <= r < v@.len(),
            r < first + self.arity(),
            forall|j: int|
                first <= j < v@.len() && j < first + self.arity() ==> !(self.less())(
                    v@[r as int],
                    #[trigger] v@[j],
                ),
    {
        proof {
            self.lemma_valid();
        }
        let ghost lt = self.less();
        let n = self.branching();
        let stop = if v.len() - first < n {
            v.len()
        } else {
            first + n
        };
        let mut best = first;
        let mut k = first + 1;
        while k < stop
            invariant
                self.valid(),
                lt == self.less(),
                strict_weak_order(lt),
                n as nat == self.arity(),
                first <= best < k <= stop,
                stop <= v@.len(),
                stop <= first + n,
                forall|j: int| first <= j < k ==> !lt(v@[best as int], #[trigger] v@[j]),
            decreases stop - k,
        {
            if self.is_less(&v[best], &v[k]) {
                proof {
                    assert forall|j: int| first <= j <= k implies !lt(
                        v@[k as int],
                        #[trigger] v@[j],
                    ) by {
                        if j < k {
                            if lt(v@[k as int], v@[j]) {
                                assert(lt(v@[best as int], v@[j]));
                            }
                        } else {
                            assert(!lt(v@[k as int], v@[k as int]));
                        }
                    }
                }
                best = k;
            }
            k = k + 1;
        }
        best
    }

    /// Restores the heap order over the subtree of `node` in `v`, given that it
    /// already holds over the subtrees of `node`'s children: the element at
    /// `node` is swapped down with its greatest child until it is not less than
    /// any of its children or has none. Nothing outside that subtree moves.
    fn sift_down(&self, v: &mut [T], node: usize)
        requires
            self.valid(),
            subtree_heap_below(old(v)@, self.less(), self.arity(), node as int),
        ensures
            final(v)@.len() == old(v)@.len(),
            final(v)@.to_multiset() == old(v)@.to_multiset(),
            subtree_heap(final(v)@, self.less(), self.arity(), node as int),
            forall|k: int|
                0 <= k < old(v)@.len() && !in_subtree(k, node as int, self.arity()) ==> final(v)@[k]
                    == old(v)@[k],
    {
        proof {
            self.lemma_valid();
        }
        let ghost lt = self.less();
        let ghost n = self.arity();
        let ghost start = old(v)@;
        let n_exec = self.branching();
        let len = v.len();
        let mut cur = node;
        loop
            invariant
                self.valid(),
                lt == self.less(),
                n == self.arity(),
                n_exec as nat == n,
                n >= 2,
                strict_weak_order(lt),
                v@.len() == len,
                v@.to_multiset() == start.to_multiset(),
                in_subtree(cur as int, node as int, n),
                forall|k: int|
                    0 <= k < len && !in_subtree(k, node as int, n) ==> v@[k] == start[k],
                forall|c: int|
                    0 < c < len && in_subtree(#[trigger] parent(c, n), node as int, n) && parent(c, n)
                        != cur ==> !lt(v@[parent(c, n)], v@[c]),
                cur > node ==> in_subtree(parent(cur as int, n), node as int, n) && parent(cur as int, n) < cur,
                cur > node ==> forall|c: int|
                    0 < c < len && #[trigger] parent(c, n) == cur ==> !lt(
                        v@[parent(cur as int, n)],
                        v@[c],
                    ),
            ensures
                v@.len() == len,
                v@.to_multiset() == start.to_multiset(),
                subtree_heap(v@, lt, n, node as int),
                forall|k: int|
                    0 <= k < len && !in_subtree(k, node as int, n) ==> v@[k] == start[k],
            decreases usize::MAX - cur,
        {
            let first = match first_child(cur, n_exec, len) {
                Some(c) => c,
                None => {
                    proof {
                        assert forall|c: int|
                            0 < c < len && in_subtree(#[trigger] parent(c, n), node as int, n) implies !lt(
                            v@[parent(c, n)],
                            v@[c],
                        ) by {
                            lemma_child_of_parent(c, n);
                            if parent(c, n) == cur {
                                assert(false);
                            }
                        }
                    }
                    break ;
                },
            };
            proof {
                lemma_parent_of_child(cur as int, n, first as int);
            }
            let best = self.greatest_child(v, first);
            proof {
                lemma_parent_of_child(cur as int, n, best as int);
            }
            if !self.is_less(&v[cur], &v[best]) {
                proof {
                    assert forall|c: int|
                        0 < c < len && in_subtree(#[trigger] parent(c, n), node as int, n) implies !lt(
                        v@[parent(c, n)],
                        v@[c],
                    ) by {
                        if parent(c, n) == cur {
                            lemma_child_of_parent(c, n);
                            lemma_not_lt_trans(lt, v@[cur as int], v@[best as int], v@[c]);
                        }
                    }
                }
                break ;
            }
            let ghost before = v@;
            v.swap(cur, best);
            proof {
                lemma_swap_multiset(before, cur as int, best as int);
                lemma_lt_asym(lt, before[cur as int], before[best as int]);
                assert(in_subtree(best as int, node as int, n));
                assert forall|k: int|
                    0 <= k < len && !in_subtree(k, node as int, n) implies v@[k] == start[k] by {
                    assert(k != cur && k != best);
                }
                assert forall|c: int|
                    0 < c < len && in_subtree(#[trigger] parent(c, n), node as int, n) && parent(c, n)
                        != best implies !lt(
                    v@[parent(c, n)],
                    v@[c],
                ) by {
                    lemma_child_of_parent(c, n);
                    let p = parent(c, n);
                    if p == cur {
                        if c != best {
                            assert(!lt(before[best as int], before[c]));
                        }
                    } else if c == cur {
                        assert(cur > node) by {
                            lemma_in_subtree_not_before(p, node as int, n);
                        }
                        assert(!lt(before[p], before[best as int]));
                    } else {
                        assert(c != best) by {
                            if c == best {
                                assert(p == cur);
                            }
                        }
                        assert(before[p] == v@[p]);
                    }
                }
                assert forall|c: int| 0 < c < len && #[trigger] parent(c, n) == best implies !lt(
                    v@[parent(best as int, n)],
                    v@[c],
                ) by {
                    lemma_child_of_parent(c, n);
                    assert(c != cur);
                    assert(!lt(before[best as int], before[c]));
                }
            }
            cur = best;
        }
    }
}

/// The index `n * node + 1` of the first child of `node`, when it lies below
/// `len`.
fn first_child(node: usize, n: usize, len: usize) -> (r: Option<usize>)
    ensures
        r matches Some(c) ==> c == n * node + 1 && c < len,
        r is None ==> n * node + 1 >= len,
{
    match n.checked_mul(node) {
        Some(m) => {
            if len > 0 && m < len - 1 {
                Some(m + 1)
            } else {
                None
            }
        },
        None => None,
    }
}

/// The error of asking for a heap whose nodes have fewer than two children.
#[derive(Debug, Clone, Copy, PartialEq, Eq, Structural)]
pub enum ConfigError {
    /// The branching factor given, below two.
    BranchingTooSmall(usize),
}

/// The generic sift-down for branching factor `N`: the greatest child is found
/// by a left-to-right scan that moves on only to a strictly greater child.
pub struct NarySiftDown<F, const N: usize> {
    pub is_less: F,
}

impl<T, F: Fn(&T, &T) -> bool, const N: usize> SiftDown<T> for NarySiftDown<F, N> {
    open spec fn arity(&self) -> nat {
        N as nat
    }

    open spec fn less(&self) -> spec_fn(T, T) -> bool {
        comparator_lt(self.is_less)
    }

    open spec fn valid(&self) -> bool {
        N >= 2 && is_comparator(self.is_less)
    }

    proof fn lemma_valid(&self) {
    }

    fn branching(&self) -> (r: usize) {
        N
    }

    fn is_less(&self, a: &T, b: &T) -> (r: bool) {
        (self.is_less)(a, b)
    }

}

/// The sift-down for branching factor `N` under the type's own `<`.
pub struct OrdSiftDown<const N: usize>;

impl<T: Ord, const N: usize> SiftDown<T> for OrdSiftDown<N> {
    open spec fn arity(&self) -> nat {
        N as nat
    }

    open spec fn less(&self) -> spec_fn(T, T) -> bool {
        ord_lt::<T>()
    }

    open spec fn valid(&self) -> bool {
        N >= 2 && T::obeys_partial_cmp_spec() && strict_weak_order(ord_lt::<T>())
    }

    proof fn lemma_valid(&self) {
    }

    fn branching(&self) -> (r: usize) {
        N
    }

    fn is_less(&self, a: &T, b: &T) -> (r: bool) {
        a.lt(b)
    }

}

/// Builds the sift-down for branching factor `N` around the comparator
/// `is_less`; a branching factor below two is refused before anything is
/// sorted.
pub fn make_sift_down<T, const N: usize, F: Fn(&T, &T) -> bool>(is_less: F) -> (r: Result<
    NarySiftDown<F, N>,
    ConfigError,
>)
    ensures
        N < 2 <==> r is Err,
        r matches Err(e) ==> e == ConfigError::BranchingTooSmall(N),
        r matches Ok(s) ==> s.is_less == is_less,
{
    if N < 2 {
        Err(ConfigError::BranchingTooSmall(N))
    } else {
        Ok(NarySiftDown { is_less })
    }
}

} // verus!
