use minipath::forest::{run_ranges, BinForest};

#[test]
fn singletons_are_their_own_roots() {
    let mut f = BinForest::new(5);
    assert_eq!(f.len(), 5);
    for i in 0..5 {
        assert!(f.is_root(i));
        assert_eq!(f.find(i), i);
    }
}

#[test]
fn union_and_find_with_compression() {
    let mut f = BinForest::new(6);
    f.union(1, 0);
    f.union(0, 2);
    f.union(4, 3);
    f.union(3, 2);
    assert!(!f.is_root(3));
    for i in 0..5 {
        assert_eq!(f.find(i), 2, "element {i}");
    }
    assert_eq!(f.find(5), 5);
    assert!(f.is_root(2));
    assert!(f.is_root(5));
    // After compression every element points at the root directly.
    for i in [0, 1, 3, 4] {
        assert!(!f.is_root(i));
        assert_eq!(f.find(i), 2);
    }
}

#[test]
fn run_ranges_cut_equal_keys() {
    assert_eq!(run_ranges(&vec![4, 4, 1, 1, 1, 7]), vec![(0, 2), (2, 5), (5, 6)]);
    assert_eq!(run_ranges(&vec![3]), vec![(0, 1)]);
    assert_eq!(run_ranges(&vec![2, 2, 2]), vec![(0, 3)]);
    assert!(run_ranges(&Vec::new()).is_empty());
    assert_eq!(run_ranges(&vec![1, 2, 1]), vec![(0, 1), (1, 2), (2, 3)]);
}
