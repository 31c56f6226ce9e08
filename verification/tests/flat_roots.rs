use hypercore_storage::flat::full_roots;

fn leaves_under(index: usize) -> usize {
    1usize << index.trailing_ones()
}

#[test]
fn full_roots_of_no_blocks() {
    assert_eq!(full_roots(0), Vec::<usize>::new());
}

#[test]
fn full_roots_of_one_block() {
    assert_eq!(full_roots(1), vec![0]);
}

#[test]
fn full_roots_of_two_blocks() {
    assert_eq!(full_roots(2), vec![1]);
}

#[test]
fn full_roots_of_three_blocks() {
    assert_eq!(full_roots(3), vec![1, 4]);
}

#[test]
fn full_roots_of_a_power_of_two_is_one_root() {
    assert_eq!(full_roots(4), vec![3]);
    assert_eq!(full_roots(8), vec![7]);
    assert_eq!(full_roots(1024), vec![1023]);
}

#[test]
fn full_roots_of_mixed_counts() {
    assert_eq!(full_roots(5), vec![3, 8]);
    assert_eq!(full_roots(9), vec![7, 16]);
    assert_eq!(full_roots(10), vec![7, 17]);
    assert_eq!(full_roots(7), vec![3, 9, 12]);
}

#[test]
fn full_roots_ascend_and_cover_the_count() {
    for count in 0..300usize {
        let roots = full_roots(count);
        let mut covered = 0usize;
        for (place, root) in roots.iter().enumerate() {
            if place > 0 {
                assert!(roots[place - 1] < *root);
            }
            assert!(*root < 2 * count);
            covered += leaves_under(*root);
        }
        assert_eq!(covered, count);
    }
}

#[test]
fn full_roots_of_a_large_count() {
    let count = (1usize << 40) + 1;
    assert_eq!(full_roots(count), vec![(1usize << 40) - 1, 1usize << 41]);
}
