use vstd::prelude::*;

use crate::order::{comparator_lt, is_comparator, lemma_lt_asym, lemma_not_lt_trans};
use crate::sift::SiftDown;

verus! {

/// The binary sift-down: one comparison picks the greater of two children.
pub struct BinarySiftDown<F> {
    pub is_less: F,
}

impl<T, F: Fn(&T, &T) -> bool> SiftDown<T> for BinarySiftDown<F> {
    open spec fn arity(&self) -> nat {
        2
    }

    open spec fn less(&self) -> spec_fn(T, T) -> bool {
        comparator_lt(self.is_less)
    }

    open spec fn valid(&self) -> bool {
        is_comparator(self.is_less)
    }

    proof fn lemma_valid(&self) {
    }

    fn branching(&self) -> (r: usize) {
        2
    }

    fn is_less(&self, a: &T, b: &T) -> (r: bool) {
        (self.is_less)(a, b)
    }

    fn greatest_child(&self, v: &[T], first: usize) -> (r: usize) {
        let ghost lt = self.less();
        let mut child = first;
        if v.len() - child > 1 {
            if self.is_less(&v[child], &v[child + 1]) {
                proof {
                    lemma_lt_asym(lt, v@[first as int], v@[first + 1]);
                }
                child = child + 1;
            }
        }
        proof {
            assert(!lt(v@[child as int], v@[child as int]));
        }
        child
    }
}

/// The ternary sift-down: at most two comparisons pick the greatest of three
/// children.
pub struct TernarySiftDown<F> {
    pub is_less: F,
}

impl<T, F: Fn(&T, &T) -> bool> SiftDown<T> for TernarySiftDown<F> {
    open spec fn arity(&self) -> nat {
        3
    }

    open spec fn less(&self) -> spec_fn(T, T) -> bool {
        comparator_lt(self.is_less)
    }

    open spec fn valid(&self) -> bool {
        is_comparator(self.is_less)
    }

    proof fn lemma_valid(&self) {
    }

    fn branching(&self) -> (r: usize) {
        3
    }

    fn is_less(&self, a: &T, b: &T) -> (r: bool) {
        (self.is_less)(a, b)
    }

    fn greatest_child(&self, v: &[T], first: usize) -> (r: usize) {
        let ghost lt = self.less();
        let ghost s = v@;
        let mut child = first;
        if v.len() - child > 2 && self.is_less(&v[child + 1], &v[child + 2]) {
            // The middle child is not the greatest: compare the first with the last.
            if self.is_less(&v[child], &v[child + 2]) {
                proof {
                    lemma_lt_asym(lt, s[first as int], s[first + 2]);
                    lemma_lt_asym(lt, s[first + 1], s[first + 2]);
                }
                child = child + 2;
            } else {
                proof {
                    if lt(s[first as int], s[first + 1]) {
                        assert(lt(s[first as int], s[first + 2]));
                    }
                }
            }
        } else if v.len() - child > 1 {
            if self.is_less(&v[child], &v[child + 1]) {
                proof {
                    lemma_lt_asym(lt, s[first as int], s[first + 1]);
                }
                child = child + 1;
            } else if v.len() - child > 2 {
                proof {
                    lemma_not_lt_trans(lt, s[first as int], s[first + 1], s[first + 2]);
                }
            }
        }
        proof {
            assert(!lt(s[child as int], s[child as int]));
        }
        child
    }
}

} // verus!
