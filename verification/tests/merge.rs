use divisible::{DivisibleIntoBlocks, Mergeable};

#[test]
fn fusing_units_gives_unit() {
    assert_eq!(().fuse(()), ());
}

#[test]
fn fusing_lists_concatenates_in_order() {
    assert_eq!(vec![1, 2].fuse(vec![3]), vec![1, 2, 3]);
    assert_eq!(Vec::<u8>::new().fuse(vec![3]), vec![3]);
    assert_eq!(vec![3u8].fuse(Vec::new()), vec![3]);
}

#[test]
fn fusing_is_not_commutative_on_lists() {
    assert_ne!(vec![1, 2].fuse(vec![3]), vec![3].fuse(vec![1, 2]));
}

#[test]
fn fusing_lists_is_associative() {
    let a = vec!['a'];
    let b = vec!['b', 'c'];
    let c = vec!['d'];
    let left_first = a.clone().fuse(b.clone()).fuse(c.clone());
    let right_first = a.fuse(b.fuse(c));
    assert_eq!(left_first, right_first);
    assert_eq!(left_first, vec!['a', 'b', 'c', 'd']);
}

#[test]
fn outputs_of_split_parts_fuse_to_the_output_of_the_whole() {
    let data: Vec<u32> = (0..9).collect();
    let whole: Vec<u32> = data.iter().map(|x| x * x).collect();
    for index in 0..=data.len() {
        let (left, right) = data.as_slice().divide_at(index);
        let left_out: Vec<u32> = left.iter().map(|x| x * x).collect();
        let right_out: Vec<u32> = right.iter().map(|x| x * x).collect();
        assert_eq!(left_out.fuse(right_out), whole);
    }
}

#[test]
fn outputs_of_three_parts_fuse_either_way() {
    let data: Vec<u32> = (0..7).collect();
    let (left, rest) = data.as_slice().divide_at(2);
    let (middle, right) = rest.divide_at(3);
    let out = |part: &[u32]| -> Vec<u32> { part.iter().map(|x| x + 1).collect() };
    let one = out(left).fuse(out(middle)).fuse(out(right));
    let other = out(left).fuse(out(middle).fuse(out(right)));
    assert_eq!(one, other);
    assert_eq!(one, out(&data));
}
