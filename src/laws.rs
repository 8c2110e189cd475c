use vstd::prelude::*;

use crate::order::{sorted_by, strict_weak_order};

verus! {

/// Within `s`, elements that neither comes before the other are equal.
pub open spec fn equivalents_equal<T>(s: Seq<T>, lt: spec_fn(T, T) -> bool) -> bool {
    forall|i: int, j: int|
        0 <= i < s.len() && 0 <= j < s.len() && !lt(#[trigger] s[i], #[trigger] s[j]) && !lt(s[j], s[i])
            ==> s[i] == s[j]
}

/// Two ascending arrangements of the same elements are identical, as long as
/// elements that the ordering cannot tell apart are equal.
pub proof fn lemma_sorted_arrangements_agree<T>(lt: spec_fn(T, T) -> bool, a: Seq<T>, b: Seq<T>)
    requires
        strict_weak_order(lt),
        a.to_multiset() == b.to_multiset(),
        sorted_by(a, lt),
        sorted_by(b, lt),
        equivalents_equal(a, lt),
    ensures
        a == b,
    decreases a.len(),
{
    broadcast use vstd::seq_lib::group_to_multiset_ensures;

    assert(a.len() == a.to_multiset().len());
    assert(b.len() == b.to_multiset().len());
    if a.len() > 0 {
        // The first of each is the other's smallest element: they are equivalent.
        assert(a.to_multiset().count(b[0]) > 0);
        assert(a.contains(b[0]));
        let i = choose|i: int| 0 <= i < a.len() && a[i] == b[0];
        assert(b.to_multiset().count(a[0]) > 0);
        assert(b.contains(a[0]));
        let j = choose|j: int| 0 <= j < b.len() && b[j] == a[0];
        if i > 0 {
            assert(!lt(a[i], a[0]));
        }
        if j > 0 {
            assert(!lt(b[j], b[0]));
        }
        assert(!lt(a[0], a[i]) || i == 0);
        assert(a[0] == b[0]) by {
            if i != 0 {
                if lt(a[0], a[i]) {
                    assert(!lt(b[j], b[0]) || j == 0);
                }
            }
        }
        let ra = a.remove(0);
        let rb = b.remove(0);
        assert(ra.to_multiset() == rb.to_multiset());
        assert forall|x: int, y: int|
            0 <= x < ra.len() && 0 <= y < ra.len() && !lt(#[trigger] ra[x], #[trigger] ra[y]) && !lt(
                ra[y],
                ra[x],
            ) implies ra[x] == ra[y] by {
            assert(ra[x] == a[x + 1] && ra[y] == a[y + 1]);
        }
        assert forall|x: int, y: int| 0 <= x < y < ra.len() implies !lt(
            #[trigger] ra[y],
            #[trigger] ra[x],
        ) by {
            assert(ra[x] == a[x + 1] && ra[y] == a[y + 1]);
        }
        assert forall|x: int, y: int| 0 <= x < y < rb.len() implies !lt(
            #[trigger] rb[y],
            #[trigger] rb[x],
        ) by {
            assert(rb[x] == b[x + 1] && rb[y] == b[y + 1]);
        }
        lemma_sorted_arrangements_agree(lt, ra, rb);
        assert(a =~= b) by {
            assert forall|k: int| 0 <= k < a.len() implies a[k] == b[k] by {
                if k > 0 {
                    assert(a[k] == ra[k - 1] && b[k] == rb[k - 1]);
                }
            }
        }
    }
}

/// Sorting an input that is already ascending gives it back unchanged, element
/// for element, when its equivalent elements are equal.
pub proof fn lemma_sorting_ascending_input_is_identity<T>(
    lt: spec_fn(T, T) -> bool,
    input: Seq<T>,
    output: Seq<T>,
)
    requires
        strict_weak_order(lt),
        sorted_by(input, lt),
        equivalents_equal(input, lt),
        output.to_multiset() == input.to_multiset(),
        sorted_by(output, lt),
    ensures
        output == input,
{
    lemma_sorted_arrangements_agree(lt, input, output);
}

/// Two sorts of one input, whatever their branching factors, hold the same
/// elements, and are identical when the input's equivalent elements are equal.
pub proof fn lemma_result_independent_of_arity<T>(
    lt: spec_fn(T, T) -> bool,
    input: Seq<T>,
    out_a: Seq<T>,
    out_b: Seq<T>,
)
    requires
        strict_weak_order(lt),
        out_a.to_multiset() == input.to_multiset(),
        sorted_by(out_a, lt),
        out_b.to_multiset() == input.to_multiset(),
        sorted_by(out_b, lt),
    ensures
        out_a.to_multiset() == out_b.to_multiset(),
        equivalents_equal(input, lt) ==> out_a == out_b,
{
    if equivalents_equal(input, lt) {
        broadcast use vstd::seq_lib::group_to_multiset_ensures;

        assert forall|i: int, j: int|
            0 <= i < out_a.len() && 0 <= j < out_a.len() && !lt(#[trigger] out_a[i], #[trigger] out_a[j])
                && !lt(out_a[j], out_a[i]) implies out_a[i] == out_a[j] by {
            assert(out_a.contains(out_a[i]) && out_a.contains(out_a[j]));
            assert(input.to_multiset().count(out_a[i]) > 0);
            assert(input.to_multiset().count(out_a[j]) > 0);
            assert(input.contains(out_a[i]) && input.contains(out_a[j]));
        }
        lemma_sorted_arrangements_agree(lt, out_a, out_b);
    }
}

/// An arrangement of no element or of a single element is that input itself.
pub proof fn lemma_short_input_unchanged<T>(input: Seq<T>, output: Seq<T>)
    requires
        input.len() <= 1,
        output.to_multiset() == input.to_multiset(),
    ensures
        output == input,
{
    broadcast use vstd::seq_lib::group_to_multiset_ensures;

    assert(output.len() == output.to_multiset().len());
    assert(input.len() == input.to_multiset().len());
    if input.len() == 1 {
        assert(output.contains(output[0]));
        assert(input.to_multiset().count(output[0]) > 0);
        assert(input.contains(output[0]));
        assert(output =~= input);
    } else {
        assert(output =~= input);
    }
}

} // verus!
