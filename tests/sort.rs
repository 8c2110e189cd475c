use heap_n_sort::sift::{make_sift_down, ConfigError, NarySiftDown, OrdSiftDown};
use heap_n_sort::sort::{heap_3_sort, heap_n_sort, heapsort, heapsort_by, std_heapsort};
use heap_n_sort::special::{BinarySiftDown, TernarySiftDown};

fn random_values(count: usize) -> Vec<u32> {
    (0..count).map(|_| rand::random::<u32>()).collect::<Vec<_>>()
}

fn is_ascending(v: &[u32]) -> bool {
    v.windows(2).all(|w| w[0] <= w[1])
}

fn sorted_copy(v: &[u32]) -> Vec<u32> {
    let mut w = v.to_vec();
    w.sort();
    w
}

fn test_sort_n<const N: usize>() -> bool {
    let mut arr = random_values(10u32.pow(3) as usize);
    heapsort::<_, N>(&mut arr);
    is_ascending(&arr)
}

#[test]
fn test_sort() {
    assert!(test_sort_n::<2>());
    assert!(test_sort_n::<3>());
    assert!(test_sort_n::<4>());
    assert!(test_sort_n::<5>());
    assert!(test_sort_n::<6>());
    assert!(test_sort_n::<7>());
    assert!(test_sort_n::<8>());
}

#[test]
fn binary_heap_sorts_small_input() {
    let mut v = vec![5u32, 3, 8, 1, 9, 2];
    heapsort::<_, 2>(&mut v);
    assert_eq!(v, vec![1, 2, 3, 5, 8, 9]);
}

#[test]
fn ternary_heap_sorts_descending_input() {
    let mut v = vec![9u32, 8, 7, 6, 5, 4, 3, 2, 1];
    heapsort::<_, 3>(&mut v);
    assert_eq!(v, vec![1, 2, 3, 4, 5, 6, 7, 8, 9]);
}

fn sort_with_arity<const N: usize>(input: &[u32]) -> Vec<u32> {
    let mut v = input.to_vec();
    heapsort::<_, N>(&mut v);
    v
}

#[test]
fn random_input_every_arity_gives_same_sorted_permutation() {
    let input = random_values(1000);
    let expected = sorted_copy(&input);
    let outputs = vec![
        sort_with_arity::<2>(&input),
        sort_with_arity::<3>(&input),
        sort_with_arity::<4>(&input),
        sort_with_arity::<5>(&input),
        sort_with_arity::<6>(&input),
        sort_with_arity::<7>(&input),
        sort_with_arity::<8>(&input),
    ];
    for out in outputs.iter() {
        assert!(is_ascending(out));
        assert_eq!(sorted_copy(out), expected);
        assert_eq!(out, &outputs[0]);
    }
}

#[test]
fn empty_input_stays_empty() {
    let mut v: Vec<u32> = Vec::new();
    heapsort::<_, 2>(&mut v);
    assert!(v.is_empty());
    heapsort::<_, 5>(&mut v);
    assert!(v.is_empty());
    heapsort::<_, 8>(&mut v);
    assert!(v.is_empty());
    heapsort_by::<_, 3, _>(&mut v, |a: &u32, b: &u32| a < b);
    assert!(v.is_empty());
    heap_3_sort(&mut v, |a: &u32, b: &u32| a < b);
    assert!(v.is_empty());
    std_heapsort(&mut v, |a: &u32, b: &u32| a < b);
    assert!(v.is_empty());
}

#[test]
fn single_element_stays() {
    let mut v = vec![42u32];
    heapsort::<_, 5>(&mut v);
    assert_eq!(v, vec![42]);
    heapsort::<_, 2>(&mut v);
    assert_eq!(v, vec![42]);
    heap_3_sort(&mut v, |a: &u32, b: &u32| a < b);
    assert_eq!(v, vec![42]);
}

#[test]
fn builder_refuses_branching_factor_one() {
    let r = make_sift_down::<u32, 1, _>(|a: &u32, b: &u32| a < b);
    assert!(matches!(r, Err(ConfigError::BranchingTooSmall(1))));
}

#[test]
fn builder_refuses_branching_factor_zero() {
    let r = make_sift_down::<u32, 0, _>(|a: &u32, b: &u32| a < b);
    assert!(matches!(r, Err(ConfigError::BranchingTooSmall(0))));
}

#[test]
fn builder_accepts_branching_factor_two_and_sorts() {
    let r = make_sift_down::<u32, 4, _>(|a: &u32, b: &u32| a < b);
    assert!(r.is_ok());
    let mut v = vec![10u32, 0, 7, 7, 3, 11, 2, 5, 1];
    if let Ok(s) = r {
        heap_n_sort(&mut v, s);
    }
    assert_eq!(v, vec![0, 1, 2, 3, 5, 7, 7, 10, 11]);
}

#[test]
fn heapsort_by_follows_the_comparator() {
    let mut v = vec![5u32, 3, 8, 1, 9, 2];
    heapsort_by::<_, 4, _>(&mut v, |a: &u32, b: &u32| a > b);
    assert_eq!(v, vec![9, 8, 5, 3, 2, 1]);
}

#[test]
fn heapsort_by_orders_by_key() {
    let mut v = vec![(3u32, 'c'), (1, 'a'), (2, 'b'), (0, 'z')];
    heapsort_by::<_, 2, _>(&mut v, |a: &(u32, char), b: &(u32, char)| a.0 < b.0);
    assert_eq!(v, vec![(0, 'z'), (1, 'a'), (2, 'b'), (3, 'c')]);
}

#[test]
fn ternary_specialisation_sorts() {
    let mut v = vec![9u32, 8, 7, 6, 5, 4, 3, 2, 1];
    heap_3_sort(&mut v, |a: &u32, b: &u32| a < b);
    assert_eq!(v, vec![1, 2, 3, 4, 5, 6, 7, 8, 9]);
    let input = random_values(1000);
    let mut w = input.clone();
    heap_3_sort(&mut w, |a: &u32, b: &u32| a < b);
    assert_eq!(w, sorted_copy(&input));
}

#[test]
fn binary_specialisation_sorts() {
    let mut v = vec![5u32, 3, 8, 1, 9, 2];
    std_heapsort(&mut v, |a: &u32, b: &u32| a < b);
    assert_eq!(v, vec![1, 2, 3, 5, 8, 9]);
    let input = random_values(1000);
    let mut w = input.clone();
    std_heapsort(&mut w, |a: &u32, b: &u32| a < b);
    assert_eq!(w, sorted_copy(&input));
}

#[test]
fn driver_accepts_every_strategy() {
    let input = vec![4u32, 4, 1, 0, 13, 6, 6, 2, 9, 3, 12];
    let expected = sorted_copy(&input);

    let mut a = input.clone();
    heap_n_sort(&mut a, BinarySiftDown { is_less: |x: &u32, y: &u32| x < y });
    assert_eq!(a, expected);

    let mut b = input.clone();
    heap_n_sort(&mut b, TernarySiftDown { is_less: |x: &u32, y: &u32| x < y });
    assert_eq!(b, expected);

    let mut c = input.clone();
    heap_n_sort(&mut c, NarySiftDown::<_, 6> { is_less: |x: &u32, y: &u32| x < y });
    assert_eq!(c, expected);

    let mut d = input.clone();
    heap_n_sort(&mut d, OrdSiftDown::<7>);
    assert_eq!(d, expected);
}

#[test]
fn ascending_input_is_unchanged() {
    let input = vec![1u32, 2, 2, 3, 5, 8, 13, 21];
    let mut a = input.clone();
    heapsort::<_, 2>(&mut a);
    assert_eq!(a, input);
    let mut b = input.clone();
    heapsort::<_, 6>(&mut b);
    assert_eq!(b, input);
}

#[test]
fn duplicates_are_kept() {
    let mut v = vec![2u32, 2, 1, 1, 2, 1, 0, 0];
    heapsort::<_, 3>(&mut v);
    assert_eq!(v, vec![0, 0, 1, 1, 1, 2, 2, 2]);
}

#[test]
fn extreme_values_sort() {
    let mut v = vec![u32::MAX, 0, u32::MAX, 1, 0];
    heapsort::<_, 2>(&mut v);
    assert_eq!(v, vec![0, 0, 1, u32::MAX, u32::MAX]);
}

#[test]
fn zero_sized_elements_complete() {
    let mut v = vec![(); 7];
    heapsort::<_, 2>(&mut v);
    assert_eq!(v.len(), 7);
    heapsort_by::<_, 3, _>(&mut v, |_: &(), _: &()| false);
    assert_eq!(v.len(), 7);
}

#[test]
fn zero_sized_elements_are_not_compared() {
    let calls = std::cell::Cell::new(0u32);
    let mut v = vec![(); 9];
    heapsort_by::<_, 2, _>(&mut v, |_: &(), _: &()| {
        calls.set(calls.get() + 1);
        false
    });
    assert_eq!(calls.get(), 0);
}

#[test]
fn every_arity_sorts_descending_input() {
    let input: Vec<u32> = (0..50u32).rev().collect();
    let expected: Vec<u32> = (0..50u32).collect();
    assert_eq!(sort_with_arity::<2>(&input), expected);
    assert_eq!(sort_with_arity::<3>(&input), expected);
    assert_eq!(sort_with_arity::<4>(&input), expected);
    assert_eq!(sort_with_arity::<5>(&input), expected);
    assert_eq!(sort_with_arity::<6>(&input), expected);
    assert_eq!(sort_with_arity::<7>(&input), expected);
    assert_eq!(sort_with_arity::<8>(&input), expected);
    assert_eq!(sort_with_arity::<9>(&input), expected);
    assert_eq!(sort_with_arity::<64>(&input), expected);
}
