//! The ways verification can fail.

use crate::types::{Duration, Height, LightBlock, PeerId, SignedHeader, Time};
use vstd::prelude::*;

verus! {

/// The rule a light block broke.
#[derive(Clone, Copy, Debug, PartialEq, Eq, Structural)]
pub enum ErrorKind {
    /// A validator set does not match the hash a header commits to: the block's
    /// own set, its next set, or, for an adjacent block, the set the trusted
    /// header announced.
    InvalidValidatorSet,
    /// The header does not hash to the block identifier the commit signs.
    HeaderHashMismatch,
    /// The commit holds a vote for the block that is not validly signed by a
    /// member of the block's validator set, or two votes by one signer.
    InvalidCommit,
    /// The trusted block is older than the trusting period allows.
    TrustedStateExpired,
    /// The new header lies outside the trusting period, or further ahead of the
    /// local clock than the tolerated drift.
    HeaderOutsideTrustingPeriod,
    /// The new header is not later in time than the trusted one.
    NonMonotonicBftTime,
    /// The new header is not higher than the trusted one.
    NonMonotonicHeight,
    /// Too little of the trusted voting power signed the new block to skip to it.
    InsufficientOverlap,
    /// No more than two thirds of the block's own voting power signed it.
    InsufficientSigners,
    /// The block does not lie at the height that was asked for.
    UnexpectedHeight,
    /// The peer's block at this height was rejected before and is not
    /// considered again.
    AlreadyFailed,
}

impl ErrorKind {
    /// Whether an intermediate block may still make the rejected block acceptable.
    pub open spec fn bisectable(self) -> bool {
        self == ErrorKind::InsufficientOverlap
    }

    pub fn is_bisectable(&self) -> (r: bool)
        ensures
            r == self.bisectable(),
    {
        match self {
            ErrorKind::InsufficientOverlap => true,
            _ => false,
        }
    }
}

/// What a call on the light client can fail with.
#[derive(Debug, PartialEq, Eq)]
pub enum Error {
    /// The store holds no block to extend trust from.
    NoInitialTrustedState,
    /// The latest trusted block is older than the trusting period allows.
    TrustedStateExpired { trusted_time: Time, trusting_period: Duration, now: Time },
    /// The block that `peer` supplied for `height` broke a rule.
    InvalidLightBlock { kind: ErrorKind, height: Height, peer: PeerId },
    /// The primary failed and no witness is left to take its place.
    NoPrimary,
    /// A witness can justify a block that conflicts with the verified one.
    /// `primary` is the verified block; `witness` is the conflicting header.
    ForkDetected { primary: LightBlock, witness: SignedHeader, witness_id: PeerId },
    /// Every witness that was left turned out faulty; `witness_id` is the last
    /// of them.
    FaultyWitness { witness_id: PeerId },
}

} // verus!
