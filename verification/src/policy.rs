//! The handoff object: a divisible input paired with the policy chosen for it.
use crate::traits::Divisible;
use crate::Policy;
use vstd::prelude::*;

verus! {

/// A divisible input together with the scheduling policy it is to be processed
/// with. It is built by [`Divisible::with_policy`] and consumed by a scheduler.
pub struct ParametrizedInput<D: Divisible> {
    /// The work to schedule.
    pub input: D,
    /// How to schedule it.
    pub policy: Policy,
}

} // verus!
