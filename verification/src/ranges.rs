//! Integer ranges as divisible values.
//!
//! A range stands for the sequence of the integers it runs over, from `start`
//! up to but not including `end`; a range whose `end` is not above its `start`
//! is empty. Cutting a range yields two adjacent ranges: the left one ends
//! where the right one starts.
use crate::chunks::{
    chunk_extents, chunk_leftover, lemma_chunks_of_exact_sizes, lemma_rejoined_sequences, sizes_sum,
};
use crate::sequences::{lemma_seq_halves, lemma_seq_split, seq_halves, seq_split};
use crate::traits::{Divisible, DivisibleAtIndex, DivisibleIntoBlocks};
use core::ops::Range;
use vstd::prelude::*;

verus! {

/// The number of integers from `start` up to but not including `end`.
pub open spec fn range_len(start: int, end: int) -> nat {
    if start <= end {
        (end - start) as nat
    } else {
        0
    }
}

/// The integers from `start` up to but not including `end`, in order.
pub open spec fn range_items(start: int, end: int) -> Seq<int> {
    Seq::new(range_len(start, end), |i: int| start + i)
}

/// A range cut at `start + index` falls into the first `index` of its integers
/// and the rest.
pub proof fn lemma_range_split(start: int, end: int, index: nat)
    requires
        index <= range_len(start, end),
    ensures
        range_items(start, start + index) == seq_split(range_items(start, end), index).0,
        range_items(start + index, end) == seq_split(range_items(start, end), index).1,
{
    assert(range_items(start, start + index) =~= seq_split(range_items(start, end), index).0);
    assert(range_items(start + index, end) =~= seq_split(range_items(start, end), index).1);
}

impl Divisible for Range<usize> {
    type Extent = Seq<int>;

    open spec fn extent(&self) -> Seq<int> {
        range_items(self.start as int, self.end as int)
    }

    open spec fn extent_len(e: Seq<int>) -> nat {
        e.len()
    }

    open spec fn extent_join(left: Seq<int>, right: Seq<int>) -> Seq<int> {
        left + right
    }

    open spec fn extent_halves(e: Seq<int>) -> (Seq<int>, Seq<int>) {
        seq_halves(e)
    }

    proof fn lemma_halves(e: Seq<int>) {
        lemma_seq_halves(e);
    }

    fn base_length(&self) -> (n: usize)
        ensures
            n == range_len(self.start as int, self.end as int),
    {
        if self.start <= self.end {
            self.end - self.start
        } else {
            0
        }
    }

    /// The halves meet at `start + len / 2`.
    fn divide(self) -> (halves: (Self, Self))
        ensures
            halves.0.start == self.start,
            halves.0.end == self.start + range_len(self.start as int, self.end as int) / 2,
            halves.1.start == halves.0.end,
            halves.1.end == self.end,
    {
        let len: usize = self.base_length();
        let mid: usize = self.start + len / 2;
        proof {
            lemma_range_split(self.start as int, self.end as int, (len / 2) as nat);
            lemma_seq_halves(self.extent());
        }
        (self.start..mid, mid..self.end)
    }
}

impl DivisibleIntoBlocks for Range<usize> {
    open spec fn extent_split(e: Seq<int>, index: nat) -> (Seq<int>, Seq<int>) {
        seq_split(e, index)
    }

    proof fn lemma_split(e: Seq<int>, index: nat) {
        lemma_seq_split(e, index);
    }

    /// The parts meet at `start + index`.
    fn divide_at(self, index: usize) -> (parts: (Self, Self))
        ensures
            parts.0.start == self.start,
            parts.0.end == self.start + index,
            parts.1.start == parts.0.end,
            parts.1.end == self.end,
    {
        let mid: usize = self.start + index;
        proof {
            lemma_range_split(self.start as int, self.end as int, index as nat);
            lemma_seq_split(self.extent(), index as nat);
        }
        (self.start..mid, mid..self.end)
    }

    /// The part returned and the part kept meet at `start + index`.
    fn cut_left_at(&mut self, index: usize) -> (left: Self)
        ensures
            left.start == old(self).start,
            left.end == old(self).start + index,
            final(self).start == left.end,
            final(self).end == old(self).end,
    {
        let start: usize = self.start;
        let mid: usize = start + index;
        proof {
            lemma_range_split(start as int, self.end as int, index as nat);
            lemma_seq_split(self.extent(), index as nat);
        }
        self.start = mid;
        start..mid
    }
}

impl DivisibleAtIndex for Range<usize> {
    proof fn lemma_halves_split_at_midpoint(e: Seq<int>) {
    }
}

/// The chunks of a range, cut by sizes that add up to its length and written
/// one after the other, are the integers of the range.
pub proof fn lemma_range_chunks_concatenate(start: int, end: int, sizes: Seq<usize>)
    requires
        sizes_sum(sizes) == range_len(start, end),
    ensures
        chunk_extents::<Range<usize>>(range_items(start, end), sizes).flatten() == range_items(
            start,
            end,
        ),
{
    let items = range_items(start, end);
    let chunks = chunk_extents::<Range<usize>>(items, sizes);
    let leftover = chunk_leftover::<Range<usize>>(items, sizes);
    lemma_chunks_of_exact_sizes::<Range<usize>>(items, sizes);
    lemma_rejoined_sequences::<int, Range<usize>>(chunks, leftover);
    assert(chunks.flatten() + leftover =~= chunks.flatten());
}

} // verus!
