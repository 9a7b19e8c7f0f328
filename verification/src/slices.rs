//! Slices as divisible values.
//!
//! A shared slice stands for the sequence of its items. So does a mutable
//! slice, for the items it holds at the moment it is looked at; cutting one
//! yields two mutable slices over disjoint parts of the same storage, and what
//! is written through them is what the storage holds in the end.
use crate::chunks::{
    chunk_extents, chunk_leftover, lemma_chunks_of_exact_sizes, lemma_rejoined_sequences, sizes_sum,
};
use crate::sequences::{lemma_seq_halves, lemma_seq_split, seq_halves, seq_split};
use crate::traits::{Divisible, DivisibleAtIndex, DivisibleIntoBlocks};
use vstd::prelude::*;

verus! {

impl<'a, T: Sync> Divisible for &'a [T] {
    type Extent = Seq<T>;

    open spec fn extent(&self) -> Seq<T> {
        self@
    }

    open spec fn extent_len(e: Seq<T>) -> nat {
        e.len()
    }

    open spec fn extent_join(left: Seq<T>, right: Seq<T>) -> Seq<T> {
        left + right
    }

    open spec fn extent_halves(e: Seq<T>) -> (Seq<T>, Seq<T>) {
        seq_halves(e)
    }

    proof fn lemma_halves(e: Seq<T>) {
        lemma_seq_halves(e);
    }

    fn base_length(&self) -> (n: usize) {
        self.len()
    }

    fn divide(self) -> (halves: (Self, Self)) {
        let mid: usize = self.len() / 2;
        proof {
            lemma_seq_halves(self@);
        }
        self.split_at(mid)
    }
}

impl<'a, T: Sync> DivisibleIntoBlocks for &'a [T] {
    open spec fn extent_split(e: Seq<T>, index: nat) -> (Seq<T>, Seq<T>) {
        seq_split(e, index)
    }

    proof fn lemma_split(e: Seq<T>, index: nat) {
        lemma_seq_split(e, index);
    }

    fn divide_at(self, index: usize) -> (parts: (Self, Self)) {
        proof {
            lemma_seq_split(self@, index as nat);
        }
        self.split_at(index)
    }

    fn cut_left_at(&mut self, index: usize) -> (left: Self) {
        proof {
            lemma_seq_split(self@, index as nat);
        }
        let (left, right) = self.split_at(index);
        *self = right;
        left
    }
}

impl<'a, T: Sync> DivisibleAtIndex for &'a [T] {
    proof fn lemma_halves_split_at_midpoint(e: Seq<T>) {
    }
}

impl<'a, T: 'a + Sync + Send> Divisible for &'a mut [T] {
    type Extent = Seq<T>;

    open spec fn extent(&self) -> Seq<T> {
        (**self)@
    }

    open spec fn extent_len(e: Seq<T>) -> nat {
        e.len()
    }

    open spec fn extent_join(left: Seq<T>, right: Seq<T>) -> Seq<T> {
        left + right
    }

    open spec fn extent_halves(e: Seq<T>) -> (Seq<T>, Seq<T>) {
        seq_halves(e)
    }

    proof fn lemma_halves(e: Seq<T>) {
        lemma_seq_halves(e);
    }

    fn base_length(&self) -> (n: usize) {
        self.len()
    }

    /// Besides the halves themselves: whatever the halves hold when their
    /// borrows end is what the divided slice holds, left half first.
    fn divide(self) -> (halves: (Self, Self))
        ensures
            final(self)@ == final(halves.0)@ + final(halves.1)@,
    {
        let mid: usize = self.len() / 2;
        proof {
            lemma_seq_halves(self@);
        }
        self.split_at_mut(mid)
    }
}

impl<'a, T: 'a + Sync + Send> DivisibleIntoBlocks for &'a mut [T] {
    open spec fn extent_split(e: Seq<T>, index: nat) -> (Seq<T>, Seq<T>) {
        seq_split(e, index)
    }

    proof fn lemma_split(e: Seq<T>, index: nat) {
        lemma_seq_split(e, index);
    }

    /// Besides the parts themselves: whatever the parts hold when their
    /// borrows end is what the divided slice holds, left part first.
    fn divide_at(self, index: usize) -> (parts: (Self, Self))
        ensures
            final(self)@ == final(parts.0)@ + final(parts.1)@,
    {
        proof {
            lemma_seq_split(self@, index as nat);
        }
        self.split_at_mut(index)
    }

    /// Besides the parts themselves: the slice that was in `self` before the
    /// call ends up holding what the returned part and the part left in `self`
    /// hold when their borrows end, in that order.
    fn cut_left_at(&mut self, index: usize) -> (left: Self)
        ensures
            final(*old(self))@ == final(left)@ + final(*final(self))@,
    {
        proof {
            lemma_seq_split((**self)@, index as nat);
        }
        let mut whole: &'a mut [T] = &mut [];
        core::mem::swap(self, &mut whole);
        let (left, right) = whole.split_at_mut(index);
        *self = right;
        left
    }
}

impl<'a, T: 'a + Sync + Send> DivisibleAtIndex for &'a mut [T] {
    proof fn lemma_halves_split_at_midpoint(e: Seq<T>) {
    }
}

/// The chunks of a slice, cut by sizes that add up to its length and written
/// one after the other, are the items of the slice.
pub proof fn lemma_slice_chunks_concatenate<'a, T: 'a + Sync>(items: Seq<T>, sizes: Seq<usize>)
    requires
        sizes_sum(sizes) == items.len(),
    ensures
        chunk_extents::<&'a [T]>(items, sizes).flatten() == items,
{
    let chunks = chunk_extents::<&'a [T]>(items, sizes);
    let leftover = chunk_leftover::<&'a [T]>(items, sizes);
    lemma_chunks_of_exact_sizes::<&'a [T]>(items, sizes);
    lemma_rejoined_sequences::<T, &'a [T]>(chunks, leftover);
    assert(chunks.flatten() + leftover =~= chunks.flatten());
}

} // verus!
