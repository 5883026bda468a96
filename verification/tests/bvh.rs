use rt::renderer::bvh::{build_step, sort_order, split_halves, BuildStep};

#[test]
fn sort_order_sorts_by_key() {
    assert_eq!(sort_order(&vec![5, 3, 7, 1]), vec![3, 1, 0, 2]);
}

#[test]
fn sort_order_keeps_equal_keys_in_place() {
    assert_eq!(sort_order(&vec![5, 3, 5, 1]), vec![3, 1, 0, 2]);
    assert_eq!(sort_order(&vec![2, 2, 2, 2, 2]), vec![0, 1, 2, 3, 4]);
    assert_eq!(sort_order(&vec![9, 1, 9, 1, 9]), vec![1, 3, 0, 2, 4]);
}

#[test]
fn sort_order_small_inputs() {
    assert_eq!(sort_order(&vec![]), Vec::<usize>::new());
    assert_eq!(sort_order(&vec![42]), vec![0]);
    assert_eq!(sort_order(&vec![u64::MAX, 0]), vec![1, 0]);
}

#[test]
fn sort_order_reverses_descending_keys() {
    let keys: Vec<u64> = (0..20).rev().collect();
    let expected: Vec<usize> = (0..20).rev().collect();
    assert_eq!(sort_order(&keys), expected);
}

#[test]
fn sort_order_matches_a_stable_sort() {
    // A fixed pseudo-random sequence with many repeated keys.
    let mut x: u64 = 12345;
    let keys: Vec<u64> = (0..257)
        .map(|_| {
            x = x.wrapping_mul(6364136223846793005).wrapping_add(1442695040888963407);
            (x >> 33) % 17
        })
        .collect();
    let mut expected: Vec<usize> = (0..keys.len()).collect();
    expected.sort_by_key(|&i| keys[i]);
    assert_eq!(sort_order(&keys), expected);
}

#[test]
fn split_halves_are_ordered() {
    let keys = vec![4, 8, 1, 8, 3, 0, 4];
    let order = sort_order(&keys);
    let mid = order.len() / 2;
    let (left, right) = order.split_at(mid);
    for &l in left {
        for &r in right {
            assert_ne!(l, r);
            assert!(keys[l] <= keys[r]);
        }
    }
    let mut all: Vec<usize> = order.clone();
    all.sort();
    assert_eq!(all, (0..keys.len()).collect::<Vec<_>>());
}

#[test]
fn build_steps_by_count() {
    assert_eq!(build_step(1), BuildStep::Single);
    assert_eq!(build_step(2), BuildStep::Pair);
    assert_eq!(build_step(3), BuildStep::Split);
    assert_eq!(build_step(1000), BuildStep::Split);
}

#[test]
fn split_halves_cuts_the_sort_order_in_the_middle() {
    let keys = vec![5, 3, 5, 1, 9];
    let (left, right) = split_halves(&keys);
    assert_eq!(left, vec![3, 1]);
    assert_eq!(right, vec![0, 2, 4]);
    let (left, right) = split_halves(&vec![7, 7, 7, 7]);
    assert_eq!(left, vec![0, 1]);
    assert_eq!(right, vec![2, 3]);
    let (left, right) = split_halves(&vec![]);
    assert!(left.is_empty() && right.is_empty());
}
