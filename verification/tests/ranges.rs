use divisible::{Divisible, DivisibleIntoBlocks, Policy};

#[test]
fn range_length_is_end_minus_start() {
    assert_eq!((3..10usize).base_length(), 7);
    assert_eq!((4..4usize).base_length(), 0);
    assert!(Divisible::is_empty(&(4..4usize)));
    assert!(!Divisible::is_empty(&(4..5usize)));
}

#[test]
fn inverted_range_is_empty() {
    let range = 5..3usize;
    assert_eq!(range.base_length(), 0);
    assert!(Divisible::is_empty(&range));
    let (left, right) = range.divide();
    assert_eq!(left, 5..5);
    assert_eq!(right, 5..3);
    assert_eq!(left.base_length() + right.base_length(), 0);
}

#[test]
fn range_divides_at_its_midpoint() {
    let (left, right) = (0..10usize).divide();
    assert_eq!(left, 0..5);
    assert_eq!(right, 5..10);
    let (left, right) = (3..10usize).divide();
    assert_eq!(left, 3..6);
    assert_eq!(right, 6..10);
}

#[test]
fn range_divide_at_gives_adjacent_ranges() {
    let (left, right) = (10..20usize).divide_at(3);
    assert_eq!(left, 10..13);
    assert_eq!(right, 13..20);
    assert_eq!(left.end, right.start);
    let (left, right) = (10..20usize).divide_at(0);
    assert_eq!(left, 10..10);
    assert_eq!(right, 10..20);
    let (left, right) = (10..20usize).divide_at(10);
    assert_eq!(left, 10..20);
    assert_eq!(right, 20..20);
}

#[test]
fn range_divide_at_every_index_partitions() {
    for index in 0..=8usize {
        let (left, right) = (2..10usize).divide_at(index);
        assert_eq!(left.base_length(), index);
        assert_eq!(left.base_length() + right.base_length(), 8);
        let joined: Vec<usize> = left.chain(right).collect();
        let whole: Vec<usize> = (2..10).collect();
        assert_eq!(joined, whole);
    }
}

#[test]
fn divide_and_divide_at_midpoint_agree_on_ranges() {
    for end in 0..12usize {
        let (l1, r1) = (0..end).divide();
        let (l2, r2) = (0..end).divide_at(end / 2);
        assert_eq!(l1, l2);
        assert_eq!(r1, r2);
    }
}

#[test]
fn range_cut_left_at_moves_the_start() {
    let mut rest = 0..7usize;
    let left = rest.cut_left_at(2);
    assert_eq!(left, 0..2);
    assert_eq!(rest, 2..7);
    let left = rest.cut_left_at(5);
    assert_eq!(left, 2..7);
    assert_eq!(rest, 7..7);
}

#[test]
fn range_near_the_top_of_usize() {
    let top = usize::MAX;
    let (left, right) = ((top - 3)..top).divide();
    assert_eq!(left, (top - 3)..(top - 2));
    assert_eq!(right, (top - 2)..top);
    let (left, right) = ((top - 3)..top).divide_at(3);
    assert_eq!(left, (top - 3)..top);
    assert_eq!(right, top..top);
}

#[test]
fn range_with_policy() {
    let input = (1..4usize).with_policy(Policy::Rayon);
    assert_eq!(input.input, 1..4);
    assert_eq!(input.policy, Policy::Rayon);
}
