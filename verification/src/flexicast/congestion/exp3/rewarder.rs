//! Reward functions of the EXP3 heuristic.

use vstd::prelude::*;

verus! {

/// A reward function. Rewards are computed in floating point by the caller.
#[derive(Clone, Copy, Debug, PartialEq, Eq, Structural)]
pub enum EXP3Rewarder {
    /// The share of the largest recent throughput, lowered by the losses.
    Loss,
}

} // verus!
