use ecs_core::utils::IntersectAll;
use std::collections::HashSet;

#[test]
fn intersect_all_keeps_what_every_set_holds() {
    let a: HashSet<u32> = [1, 2, 3, 4].into_iter().collect();
    let b: HashSet<u32> = [2, 3, 4, 5].into_iter().collect();
    let c: HashSet<u32> = [0, 3, 4, 9].into_iter().collect();
    let sets = vec![&a, &b, &c];
    let expected: HashSet<u32> = [3, 4].into_iter().collect();
    assert_eq!(sets.intersect_all(), expected);
}

#[test]
fn intersect_all_of_no_set_is_empty() {
    let sets: Vec<&HashSet<u32>> = vec![];
    assert!(sets.intersect_all().is_empty());
}

#[test]
fn intersect_all_of_one_set_is_that_set() {
    let a: HashSet<u64> = [7, 8].into_iter().collect();
    let sets = vec![&a];
    assert_eq!(sets.intersect_all(), a);
}

#[test]
fn intersect_all_with_an_empty_set_is_empty() {
    let a: HashSet<u32> = [1, 2].into_iter().collect();
    let b: HashSet<u32> = HashSet::new();
    assert!(vec![&a, &b].intersect_all().is_empty());
    assert!(vec![&b, &a].intersect_all().is_empty());
}
