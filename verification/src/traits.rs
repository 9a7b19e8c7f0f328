//! The traits that say how a piece of work splits.
//!
//! A [`Divisible`] value stands for an *extent*: the mathematical object that
//! [`Divisible::extent`] gives. The trait fixes what the length of an extent is,
//! what it means to put two extents back together, and which two extents
//! `divide` produces; the laws below tie the three together, and every
//! implementation proves them. [`DivisibleIntoBlocks`] adds the split at an
//! offset, and [`DivisibleAtIndex`] the promise that dividing is splitting at
//! the midpoint.
use crate::chunks::Chunks;
use crate::policy::ParametrizedInput;
use crate::Policy;
use vstd::prelude::*;

verus! {

/// A value that stands for a contiguous extent of work and can be cut in two.
///
/// Such a value can be moved to another thread and inspected from several
/// threads at once.
pub trait Divisible: Sized + Send + Sync {
    /// The mathematical object that a value of this type stands for.
    type Extent;

    /// The extent that this value stands for.
    spec fn extent(&self) -> Self::Extent;

    /// The size of an extent.
    spec fn extent_len(e: Self::Extent) -> nat;

    /// The extent made of `left` followed by `right`.
    spec fn extent_join(left: Self::Extent, right: Self::Extent) -> Self::Extent;

    /// The two extents that [`Divisible::divide`] cuts `e` into.
    spec fn extent_halves(e: Self::Extent) -> (Self::Extent, Self::Extent);

    /// Dividing partitions an extent at its midpoint: the left half has
    /// `len / 2` of the length (the smaller share when the length is odd), the
    /// right half has the rest, and joined again they are the extent.
    proof fn lemma_halves(e: Self::Extent)
        ensures
            Self::extent_len(Self::extent_halves(e).0) == Self::extent_len(e) / 2,
            Self::extent_len(Self::extent_halves(e).1) == Self::extent_len(e) - Self::extent_len(e)
                / 2,
            Self::extent_join(Self::extent_halves(e).0, Self::extent_halves(e).1) == e,
    ;

    /// Return our length.
    fn base_length(&self) -> (n: usize)
        ensures
            n == Self::extent_len(self.extent()),
    ;

    /// Is there something left to do ?
    fn is_empty(&self) -> (b: bool)
        ensures
            b <==> Self::extent_len(self.extent()) == 0,
    {
        self.base_length() == 0
    }

    /// Divide ourselves.
    ///
    /// The two halves are independent values; their lengths are `len / 2` and
    /// `len - len / 2`, and nothing of the extent is lost or repeated.
    fn divide(self) -> (halves: (Self, Self))
        ensures
            (halves.0.extent(), halves.1.extent()) == Self::extent_halves(self.extent()),
            Self::extent_len(halves.0.extent()) == Self::extent_len(self.extent()) / 2,
            Self::extent_len(halves.0.extent()) + Self::extent_len(halves.1.extent())
                == Self::extent_len(self.extent()),
            Self::extent_join(halves.0.extent(), halves.1.extent()) == self.extent(),
    ;

    /// Pair ourselves with the policy we are to be scheduled with.
    fn with_policy(self, policy: Policy) -> (input: ParametrizedInput<Self>)
        ensures
            input.input == self,
            input.policy == policy,
    {
        ParametrizedInput { input: self, policy }
    }
}

/// A divisible value that can also be cut at any offset inside its length.
pub trait DivisibleIntoBlocks: Divisible {
    /// The two extents that [`DivisibleIntoBlocks::divide_at`] cuts `e` into at
    /// `index`.
    spec fn extent_split(e: Self::Extent, index: nat) -> (Self::Extent, Self::Extent);

    /// Splitting inside the length partitions an extent: the left part has
    /// length `index`, the right part has the rest, and joined again they are
    /// the extent.
    proof fn lemma_split(e: Self::Extent, index: nat)
        requires
            index <= Self::extent_len(e),
        ensures
            Self::extent_len(Self::extent_split(e, index).0) == index,
            Self::extent_len(Self::extent_split(e, index).1) == Self::extent_len(e) - index,
            Self::extent_join(Self::extent_split(e, index).0, Self::extent_split(e, index).1) == e,
    ;

    /// Divide ourselves where requested.
    ///
    /// An `index` beyond the length is a bug in the caller: it is ruled out
    /// here, never clamped.
    fn divide_at(self, index: usize) -> (parts: (Self, Self))
        requires
            index <= Self::extent_len(self.extent()),
        ensures
            (parts.0.extent(), parts.1.extent()) == Self::extent_split(
                self.extent(),
                index as nat,
            ),
            Self::extent_len(parts.0.extent()) == index,
            Self::extent_len(parts.0.extent()) + Self::extent_len(parts.1.extent())
                == Self::extent_len(self.extent()),
            Self::extent_join(parts.0.extent(), parts.1.extent()) == self.extent(),
    ;

    /// Divide ourselves keeping right part in self.
    /// Returns the left part.
    ///
    /// This is `divide_at` done in place: what is returned and what stays are
    /// the two parts that `divide_at(index)` would have produced from the value
    /// before the call. The exclusive borrow keeps every other observer away
    /// until both are in place.
    fn cut_left_at(&mut self, index: usize) -> (left: Self)
        requires
            index <= Self::extent_len(old(self).extent()),
        ensures
            (left.extent(), final(self).extent()) == Self::extent_split(
                old(self).extent(),
                index as nat,
            ),
            Self::extent_len(left.extent()) == index,
            Self::extent_len(final(self).extent()) == Self::extent_len(old(self).extent()) - index,
            Self::extent_join(left.extent(), final(self).extent()) == old(self).extent(),
    ;

    /// Get a sequential iterator on chunks of Self of given sizes.
    fn chunks<S: Iterator<Item = usize>>(self, sizes: S) -> (iter: Chunks<Self, S>)
        ensures
            iter.remaining == self,
            iter.remaining_sizes == sizes,
    {
        Chunks { remaining: self, remaining_sizes: sizes }
    }
}

/// A value whose offsets are positions in the data it stands for, so that
/// dividing it is the same as splitting it at its midpoint.
pub trait DivisibleAtIndex: DivisibleIntoBlocks {
    /// `divide` is `divide_at(len / 2)` in effect.
    proof fn lemma_halves_split_at_midpoint(e: Self::Extent)
        ensures
            Self::extent_halves(e) == Self::extent_split(e, Self::extent_len(e) / 2),
    ;
}

/// Dividing and splitting at the midpoint agree on the lengths of what they
/// produce, for every value that can do both.
pub proof fn lemma_divide_lengths_match_midpoint_split<D: DivisibleIntoBlocks>(v: D)
    ensures
        D::extent_len(D::extent_halves(v.extent()).0) == D::extent_len(
            D::extent_split(v.extent(), D::extent_len(v.extent()) / 2).0,
        ),
        D::extent_len(D::extent_halves(v.extent()).1) == D::extent_len(
            D::extent_split(v.extent(), D::extent_len(v.extent()) / 2).1,
        ),
{
    D::lemma_halves(v.extent());
    D::lemma_split(v.extent(), D::extent_len(v.extent()) / 2);
}

} // verus!
