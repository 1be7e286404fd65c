//! The configuration of a light client.

use crate::types::{Duration, TrustThreshold};
use vstd::prelude::*;

verus! {

/// How the client extends trust.
#[derive(Clone, Copy, Debug, PartialEq, Eq, Structural)]
pub struct Options {
    /// The share of trusted voting power that lets the client skip to a block.
    pub trust_threshold: TrustThreshold,
    /// How long a block can be trusted after its own time.
    pub trusting_period: Duration,
    /// How far ahead of the local clock a new header may lie.
    pub clock_drift: Duration,
}

} // verus!
