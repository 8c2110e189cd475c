use vstd::prelude::*;
use vstd::std_specs::cmp::PartialOrdSpec;

verus! {

/// `lt` is a strict weak ordering: irreflexive, transitive, and with
/// incomparability transitive as well.
pub open spec fn strict_weak_order<T>(lt: spec_fn(T, T) -> bool) -> bool {
    &&& forall|a: T| !(#[trigger] lt(a, a))
    &&& forall|a: T, b: T, c: T| #[trigger] lt(a, b) && #[trigger] lt(b, c) ==> lt(a, c)
    &&& forall|a: T, b: T, c: T|
        #![trigger lt(a, b), lt(b, c)]
        !lt(a, b) && !lt(b, a) && !lt(b, c) && !lt(c, b) ==> !lt(a, c) && !lt(c, a)
}

/// Every answer that the comparator `f` can give on `(a, b)` is `lt(a, b)`.
pub open spec fn decides<T, F: Fn(&T, &T) -> bool>(f: F, lt: spec_fn(T, T) -> bool) -> bool {
    forall|a: &T, b: &T, r: bool| #[trigger] f.ensures((a, b), r) ==> r == lt(*a, *b)
}

/// A comparator can be called on any pair, and its answers follow some strict
/// weak ordering.
pub open spec fn is_comparator<T, F: Fn(&T, &T) -> bool>(f: F) -> bool {
    &&& forall|a: &T, b: &T| #[trigger] f.requires((a, b))
    &&& exists|lt: spec_fn(T, T) -> bool| strict_weak_order(lt) && #[trigger] decides(f, lt)
}

/// The strict weak ordering that a comparator follows.
pub open spec fn comparator_lt<T, F: Fn(&T, &T) -> bool>(f: F) -> spec_fn(T, T) -> bool {
    choose|lt: spec_fn(T, T) -> bool| strict_weak_order(lt) && decides(f, lt)
}

/// The strict order of a type's `PartialOrd`: `a < b`.
pub open spec fn ord_lt<T: PartialOrd>() -> spec_fn(T, T) -> bool {
    |a: T, b: T| a.partial_cmp_spec(&b) == Some(core::cmp::Ordering::Less)
}

/// No element is less than an element before it.
pub open spec fn sorted_by<T>(s: Seq<T>, lt: spec_fn(T, T) -> bool) -> bool {
    forall|i: int, j: int| 0 <= i < j < s.len() ==> !lt(#[trigger] s[j], #[trigger] s[i])
}

/// Under a strict weak ordering, "not less than" is transitive.
pub proof fn lemma_not_lt_trans<T>(lt: spec_fn(T, T) -> bool, a: T, b: T, c: T)
    requires
        strict_weak_order(lt),
        !lt(a, b),
        !lt(b, c),
    ensures
        !lt(a, c),
{
    if lt(a, c) {
        if lt(b, a) {
            assert(lt(b, c));
        } else if lt(c, b) {
            assert(lt(a, b));
        } else {
            assert(!lt(a, c));
        }
    }
}

/// Under a strict weak ordering, `lt` is asymmetric.
pub proof fn lemma_lt_asym<T>(lt: spec_fn(T, T) -> bool, a: T, b: T)
    requires
        strict_weak_order(lt),
        lt(a, b),
    ensures
        !lt(b, a),
{
    if lt(b, a) {
        assert(lt(a, a));
    }
}

/// `<[T]>::swap`: exchanges the elements at `a` and `b`, panicking when either
/// index is out of bounds.
pub assume_specification<V>[ <[V]>::swap ](slice: &mut [V], i: usize, j: usize)
    requires
        i < old(slice)@.len(),
        j < old(slice)@.len(),
    ensures
        final(slice)@ == old(slice)@.update(i as int, old(slice)@[j as int]).update(
            j as int,
            old(slice)@[i as int],
        ),
;

/// Exchanging two positions keeps the multiset of elements.
pub proof fn lemma_swap_multiset<T>(s: Seq<T>, a: int, b: int)
    requires
        0 <= a < s.len(),
        0 <= b < s.len(),
    ensures
        s.update(a, s[b]).update(b, s[a]).to_multiset() =~= s.to_multiset(),
{
    broadcast use vstd::seq_lib::group_to_multiset_ensures;
    let t = s.update(a, s[b]);
    assert(t.to_multiset() =~= s.to_multiset().insert(s[b]).remove(s[a]));
    assert(t.update(b, s[a]).to_multiset() =~= t.to_multiset().insert(s[a]).remove(t[b]));
}

} // verus!
