//! Divisibility and merge algebra for divide-and-conquer algorithms.
//!
//! A value that stands for an extent of work says how long it is and how it
//! splits ([`Divisible`], [`DivisibleIntoBlocks`], [`DivisibleAtIndex`]); the
//! outputs computed on the pieces say how they recombine ([`Mergeable`]).
//! Slices, mutable slices, integer ranges and tuples of divisible values all
//! take part in the same protocol, and [`Chunks`] cuts a value into prefixes of
//! requested sizes, one after the other.
//!
//! Every contract is stated over the *extent* of a value: the mathematical
//! object (a sequence, or a tuple of extents) that the value stands for.
use vstd::prelude::*;

pub mod chunks;
pub mod merge;
pub mod policy;
pub mod ranges;
pub mod sequences;
pub mod slices;
pub mod traits;
pub mod tuples;

pub use chunks::{Chunks, OversizedChunk};
pub use merge::Mergeable;
pub use policy::ParametrizedInput;
pub use traits::{Divisible, DivisibleAtIndex, DivisibleIntoBlocks};

verus! {

/// Different available scheduling policies.
///
/// The library does not interpret a policy: it only carries it, next to the
/// input it was chosen for, to the scheduler that does.
#[derive(Clone, Copy, Debug, PartialEq, Eq, Structural)]
pub enum Policy {
    /// Use rayon's scheduling algorithm.
    Rayon,
}

} // verus!
