//! Tuples of divisible values, driven in lock-step.
//!
//! A tuple stands for the tuple of its components' extents. It is as long as
//! its shortest component, and it is cut by cutting every component: the left
//! parts form the left tuple, the right parts the right tuple. Putting two
//! tuples back together puts each component back together.
//!
//! `divide` halves every component at that component's own midpoint. When the
//! components differ in length this is not the split of the tuple at its
//! midpoint, although the lengths of the results agree; that is why tuples are
//! [`DivisibleIntoBlocks`] but not `DivisibleAtIndex`.
use crate::traits::{Divisible, DivisibleIntoBlocks};
use vstd::prelude::*;

verus! {

/// The smaller of two lengths.
pub open spec fn shorter(a: nat, b: nat) -> nat {
    if a <= b {
        a
    } else {
        b
    }
}

impl<A: Divisible, B: Divisible> Divisible for (A, B) {
    type Extent = (A::Extent, B::Extent);

    open spec fn extent(&self) -> Self::Extent {
        (self.0.extent(), self.1.extent())
    }

    open spec fn extent_len(e: Self::Extent) -> nat {
        shorter(A::extent_len(e.0), B::extent_len(e.1))
    }

    open spec fn extent_join(left: Self::Extent, right: Self::Extent) -> Self::Extent {
        (A::extent_join(left.0, right.0), B::extent_join(left.1, right.1))
    }

    open spec fn extent_halves(e: Self::Extent) -> (Self::Extent, Self::Extent) {
        (
            (A::extent_halves(e.0).0, B::extent_halves(e.1).0),
            (A::extent_halves(e.0).1, B::extent_halves(e.1).1),
        )
    }

    proof fn lemma_halves(e: Self::Extent) {
        A::lemma_halves(e.0);
        B::lemma_halves(e.1);
    }

    fn base_length(&self) -> (n: usize) {
        let a: usize = self.0.base_length();
        let b: usize = self.1.base_length();
        if a <= b {
            a
        } else {
            b
        }
    }

    fn divide(self) -> (halves: (Self, Self)) {
        proof {
            Self::lemma_halves(self.extent());
        }
        let (left_a, right_a) = self.0.divide();
        let (left_b, right_b) = self.1.divide();
        ((left_a, left_b), (right_a, right_b))
    }
}

impl<A: DivisibleIntoBlocks, B: DivisibleIntoBlocks> DivisibleIntoBlocks for (A, B) {
    open spec fn extent_split(e: Self::Extent, index: nat) -> (Self::Extent, Self::Extent) {
        (
            (A::extent_split(e.0, index).0, B::extent_split(e.1, index).0),
            (A::extent_split(e.0, index).1, B::extent_split(e.1, index).1),
        )
    }

    proof fn lemma_split(e: Self::Extent, index: nat) {
        A::lemma_split(e.0, index);
        B::lemma_split(e.1, index);
    }

    fn divide_at(self, index: usize) -> (parts: (Self, Self)) {
        proof {
            Self::lemma_split(self.extent(), index as nat);
        }
        let (left_a, right_a) = self.0.divide_at(index);
        let (left_b, right_b) = self.1.divide_at(index);
        ((left_a, left_b), (right_a, right_b))
    }

    fn cut_left_at(&mut self, index: usize) -> (left: Self) {
        proof {
            Self::lemma_split(self.extent(), index as nat);
        }
        let left_a = self.0.cut_left_at(index);
        let left_b = self.1.cut_left_at(index);
        (left_a, left_b)
    }
}

impl<A: Divisible, B: Divisible, C: Divisible> Divisible for (A, B, C) {
    type Extent = (A::Extent, B::Extent, C::Extent);

    open spec fn extent(&self) -> Self::Extent {
        (self.0.extent(), self.1.extent(), self.2.extent())
    }

    open spec fn extent_len(e: Self::Extent) -> nat {
        shorter(A::extent_len(e.0), shorter(B::extent_len(e.1), C::extent_len(e.2)))
    }

    open spec fn extent_join(left: Self::Extent, right: Self::Extent) -> Self::Extent {
        (
            A::extent_join(left.0, right.0),
            B::extent_join(left.1, right.1),
            C::extent_join(left.2, right.2),
        )
    }

    open spec fn extent_halves(e: Self::Extent) -> (Self::Extent, Self::Extent) {
        (
            (A::extent_halves(e.0).0, B::extent_halves(e.1).0, C::extent_halves(e.2).0),
            (A::extent_halves(e.0).1, B::extent_halves(e.1).1, C::extent_halves(e.2).1),
        )
    }

    proof fn lemma_halves(e: Self::Extent) {
        A::lemma_halves(e.0);
        B::lemma_halves(e.1);
        C::lemma_halves(e.2);
    }

    fn base_length(&self) -> (n: usize) {
        let a: usize = self.0.base_length();
        let b: usize = self.1.base_length();
        let c: usize = self.2.base_length();
        let bc: usize = if b <= c {
            b
        } else {
            c
        };
        if a <= bc {
            a
        } else {
            bc
        }
    }

    fn divide(self) -> (halves: (Self, Self)) {
        proof {
            Self::lemma_halves(self.extent());
        }
        let (left_a, right_a) = self.0.divide();
        let (left_b, right_b) = self.1.divide();
        let (left_c, right_c) = self.2.divide();
        ((left_a, left_b, left_c), (right_a, right_b, right_c))
    }
}

impl<
    A: DivisibleIntoBlocks,
    B: DivisibleIntoBlocks,
    C: DivisibleIntoBlocks,
> DivisibleIntoBlocks for (A, B, C) {
    open spec fn extent_split(e: Self::Extent, index: nat) -> (Self::Extent, Self::Extent) {
        (
            (
                A::extent_split(e.0, index).0,
                B::extent_split(e.1, index).0,
                C::extent_split(e.2, index).0,
            ),
            (
                A::extent_split(e.0, index).1,
                B::extent_split(e.1, index).1,
                C::extent_split(e.2, index).1,
            ),
        )
    }

    proof fn lemma_split(e: Self::Extent, index: nat) {
        A::lemma_split(e.0, index);
        B::lemma_split(e.1, index);
        C::lemma_split(e.2, index);
    }

    fn divide_at(self, index: usize) -> (parts: (Self, Self)) {
        proof {
            Self::lemma_split(self.extent(), index as nat);
        }
        let (left_a, right_a) = self.0.divide_at(index);
        let (left_b, right_b) = self.1.divide_at(index);
        let (left_c, right_c) = self.2.divide_at(index);
        ((left_a, left_b, left_c), (right_a, right_b, right_c))
    }

    fn cut_left_at(&mut self, index: usize) -> (left: Self) {
        proof {
            Self::lemma_split(self.extent(), index as nat);
        }
        let left_a = self.0.cut_left_at(index);
        let left_b = self.1.cut_left_at(index);
        let left_c = self.2.cut_left_at(index);
        (left_a, left_b, left_c)
    }
}

/// A pair is as long as its shorter component, and so is each half it divides
/// into: the left half of the pair is as long as the left half of the shorter
/// component, the right half as long as its right half.
pub proof fn lemma_pair_lengths<A: Divisible, B: Divisible>(x: A, y: B)
    requires
        A::extent_len(x.extent()) <= B::extent_len(y.extent()),
    ensures
        <(A, B)>::extent_len((x, y).extent()) == A::extent_len(x.extent()),
        <(A, B)>::extent_len(<(A, B)>::extent_halves((x, y).extent()).0) == A::extent_len(
            A::extent_halves(x.extent()).0,
        ),
        <(A, B)>::extent_len(<(A, B)>::extent_halves((x, y).extent()).1) == A::extent_len(
            A::extent_halves(x.extent()).1,
        ),
{
    A::lemma_halves(x.extent());
    B::lemma_halves(y.extent());
}

/// Splitting a pair inside its length splits each component at the same
/// offset, so each part of the pair is exactly as long as the matching part of
/// the shorter component.
pub proof fn lemma_pair_split_lengths<A: DivisibleIntoBlocks, B: DivisibleIntoBlocks>(
    x: A,
    y: B,
    index: nat,
)
    requires
        A::extent_len(x.extent()) <= B::extent_len(y.extent()),
        index <= A::extent_len(x.extent()),
    ensures
        <(A, B)>::extent_split((x, y).extent(), index).0 == (
            A::extent_split(x.extent(), index).0,
            B::extent_split(y.extent(), index).0,
        ),
        <(A, B)>::extent_split((x, y).extent(), index).1 == (
            A::extent_split(x.extent(), index).1,
            B::extent_split(y.extent(), index).1,
        ),
        <(A, B)>::extent_len(<(A, B)>::extent_split((x, y).extent(), index).0) == A::extent_len(
            A::extent_split(x.extent(), index).0,
        ),
        <(A, B)>::extent_len(<(A, B)>::extent_split((x, y).extent(), index).1) == A::extent_len(
            A::extent_split(x.extent(), index).1,
        ),
{
    A::lemma_split(x.extent(), index);
    B::lemma_split(y.extent(), index);
}

} // verus!
