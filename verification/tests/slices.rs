use divisible::{Divisible, DivisibleIntoBlocks, Policy};

#[test]
fn ten_items_divide_into_five_and_five() {
    let data: Vec<u32> = (0..10).collect();
    let (left, right) = data.as_slice().divide();
    assert_eq!(left.base_length(), 5);
    assert_eq!(right.base_length(), 5);
    assert_eq!(left, &[0, 1, 2, 3, 4]);
    assert_eq!(right, &[5, 6, 7, 8, 9]);
}

#[test]
fn ten_items_divide_at_three() {
    let data: Vec<u32> = (0..10).collect();
    let (left, right) = data.as_slice().divide_at(3);
    assert_eq!(left.base_length(), 3);
    assert_eq!(right.base_length(), 7);
    assert_eq!(left, &[0, 1, 2]);
    assert_eq!(right, &[3, 4, 5, 6, 7, 8, 9]);
}

#[test]
fn odd_length_gives_left_the_smaller_half() {
    let data = [1u8, 2, 3, 4, 5, 6, 7];
    let (left, right) = (&data[..]).divide();
    assert_eq!(left, &[1, 2, 3]);
    assert_eq!(right, &[4, 5, 6, 7]);
}

#[test]
fn single_item_goes_right() {
    let data = [42u8];
    let (left, right) = (&data[..]).divide();
    assert!(left.is_empty());
    assert_eq!(right, &[42]);
}

#[test]
fn empty_slice_divides_into_empty_halves() {
    let data: [u8; 0] = [];
    let slice: &[u8] = &data;
    assert!(Divisible::is_empty(&slice));
    assert_eq!(slice.base_length(), 0);
    let (left, right) = slice.divide();
    assert_eq!(left.base_length(), 0);
    assert_eq!(right.base_length(), 0);
}

#[test]
fn divide_at_both_ends() {
    let data = [1u8, 2, 3];
    let (left, right) = (&data[..]).divide_at(0);
    assert_eq!(left.base_length(), 0);
    assert_eq!(right, &[1, 2, 3]);
    let (left, right) = (&data[..]).divide_at(3);
    assert_eq!(left, &[1, 2, 3]);
    assert_eq!(right.base_length(), 0);
}

#[test]
fn divide_at_every_index_partitions() {
    let data: Vec<u16> = (0..9).collect();
    for index in 0..=data.len() {
        let (left, right) = data.as_slice().divide_at(index);
        assert_eq!(left.base_length(), index);
        assert_eq!(left.base_length() + right.base_length(), data.len());
        let mut joined = left.to_vec();
        joined.extend_from_slice(right);
        assert_eq!(joined, data);
    }
}

#[test]
fn divide_and_divide_at_midpoint_agree_on_slices() {
    for len in 0..12usize {
        let data: Vec<usize> = (0..len).collect();
        let (l1, r1) = data.as_slice().divide();
        let (l2, r2) = data.as_slice().divide_at(len / 2);
        assert_eq!(l1, l2);
        assert_eq!(r1, r2);
    }
}

#[test]
fn cut_left_at_keeps_the_right_part() {
    let data = [10u8, 20, 30, 40, 50];
    let mut rest: &[u8] = &data;
    let left = rest.cut_left_at(2);
    assert_eq!(left, &[10, 20]);
    assert_eq!(rest, &[30, 40, 50]);
    let left = rest.cut_left_at(0);
    assert_eq!(left.base_length(), 0);
    assert_eq!(rest, &[30, 40, 50]);
    let left = rest.cut_left_at(3);
    assert_eq!(left, &[30, 40, 50]);
    assert!(Divisible::is_empty(&rest));
}

#[test]
fn mutable_halves_write_to_disjoint_storage() {
    let mut data = [0u8; 7];
    {
        let (left, right) = (&mut data[..]).divide();
        assert_eq!(left.base_length(), 3);
        assert_eq!(right.base_length(), 4);
        for x in left.iter_mut() {
            *x = 1;
        }
        for x in right.iter_mut() {
            *x = 2;
        }
    }
    assert_eq!(data, [1, 1, 1, 2, 2, 2, 2]);
}

#[test]
fn mutable_divide_at_writes_through() {
    let mut data = [0u8; 5];
    {
        let (left, right) = (&mut data[..]).divide_at(4);
        assert_eq!(left.base_length(), 4);
        assert_eq!(right.base_length(), 1);
        left[3] = 7;
        right[0] = 9;
    }
    assert_eq!(data, [0, 0, 0, 7, 9]);
}

#[test]
fn mutable_cut_left_at_in_place() {
    let mut data = [1u8, 2, 3, 4, 5, 6];
    {
        let mut rest: &mut [u8] = &mut data;
        let first = rest.cut_left_at(2);
        assert_eq!(first, &[1, 2]);
        assert_eq!(rest.base_length(), 4);
        let second = rest.cut_left_at(3);
        assert_eq!(second, &[3, 4, 5]);
        assert_eq!(rest, &[6]);
        first[0] = 10;
        second[2] = 50;
        rest[0] = 60;
    }
    assert_eq!(data, [10, 2, 3, 4, 50, 60]);
}

#[test]
fn with_policy_pairs_input_and_policy() {
    let data = [1u8, 2, 3];
    let input = (&data[..]).with_policy(Policy::Rayon);
    assert_eq!(input.input, &[1, 2, 3]);
    assert_eq!(input.policy, Policy::Rayon);
}

fn lengths_after_midpoint_split<D: divisible::DivisibleAtIndex>(value: D) -> (usize, usize) {
    let index = value.base_length() / 2;
    let (left, right) = value.divide_at(index);
    (left.base_length(), right.base_length())
}

#[test]
fn slices_and_ranges_are_divisible_at_index() {
    let data = [1u8, 2, 3, 4, 5];
    let mut copy = data;
    assert_eq!(lengths_after_midpoint_split(&data[..]), (2, 3));
    assert_eq!(lengths_after_midpoint_split(&mut copy[..]), (2, 3));
    assert_eq!(lengths_after_midpoint_split(4..13usize), (4, 5));
}

#[test]
fn policy_is_a_plain_marker() {
    let policy = Policy::Rayon;
    let copy = policy;
    assert_eq!(policy, copy);
    assert_eq!(format!("{:?}", policy), "Rayon");
}
