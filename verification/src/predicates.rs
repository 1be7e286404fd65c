//! The stateless rules a light block is held to. Each rule is a predicate over
//! the views of one or two light blocks and over what the hashing and signature
//! services reported about them; beside it stands the function that decides it
//! and names the failure.

use crate::errors::ErrorKind;
use crate::types::{
    CommitSig, Digest, Duration, LightBlock, LightBlockView, Time, TrustThreshold, total_power,
};
use crate::voting_power::{
    VotingPowerCalculator, endorsed_power, lemma_endorsed_power_bounded, tally, two_thirds,
};
use vstd::prelude::*;

verus! {

/// What the hashing and signature services reported about one light block.
#[derive(Debug, PartialEq, Eq)]
pub struct Observations {
    /// The digest of the block's validator set.
    pub validators_hash: Digest,
    /// The digest of the block's next validator set.
    pub next_validators_hash: Digest,
    /// For each slot of the commit, whether it holds a vote for the block that
    /// is validly signed by the member of the block's validator set it names.
    pub signatures_valid: Vec<bool>,
}

/// The model of [`Observations`].
#[verifier::ext_equal]
pub struct ObservationsView {
    pub validators_hash: Digest,
    pub next_validators_hash: Digest,
    pub signatures_valid: Seq<bool>,
}

impl View for Observations {
    type V = ObservationsView;

    open spec fn view(&self) -> ObservationsView {
        ObservationsView {
            validators_hash: self.validators_hash,
            next_validators_hash: self.next_validators_hash,
            signatures_valid: self.signatures_valid@,
        }
    }
}

/// The block's validator set hashes to what its header commits to.
pub open spec fn validator_sets_match(block: LightBlockView, validators_hash: Digest) -> bool {
    validators_hash == block.signed_header.header.validators_hash
}

/// The block's next validator set hashes to what its header commits to.
pub open spec fn next_validator_sets_match(
    block: LightBlockView,
    next_validators_hash: Digest,
) -> bool {
    next_validators_hash == block.signed_header.header.next_validators_hash
}

/// A header that was hashed again hashes to the expected digest.
pub open spec fn header_hash_matches(header_hash: Digest, expected: Digest) -> bool {
    header_hash == expected
}

/// Every vote for the block was found valid.
pub open spec fn every_vote_valid(signatures: Seq<CommitSig>, valid: Seq<bool>) -> bool {
    &&& valid.len() == signatures.len()
    &&& forall|i: int|
        0 <= i < signatures.len() && (#[trigger] signatures[i]).block_signer() is Some ==> valid[i]
}

/// No two votes name the same signer.
pub open spec fn no_duplicate_signer(signatures: Seq<CommitSig>) -> bool {
    forall|i: int, j: int|
        0 <= i < j < signatures.len() && (#[trigger] signatures[i]).signer() is Some
            ==> signatures[i].signer() != (#[trigger] signatures[j]).signer()
}

/// Every slot of the commit is empty, a vote for no block, or a valid vote for
/// the block by a member of the block's validator set; and no signer votes twice.
pub open spec fn valid_commit(block: LightBlockView, valid: Seq<bool>) -> bool {
    every_vote_valid(block.signatures(), valid) && no_duplicate_signer(block.signatures())
}

/// The trusted block is still within the trusting period.
pub open spec fn not_expired(trusted: LightBlockView, trusting_period: Duration, now: Time) -> bool {
    trusted.time().plus(trusting_period) > now.nanos
}

/// The new header is within the trusting period, and no further ahead of the
/// local clock than the tolerated drift.
pub open spec fn header_in_trusting_period(
    candidate: LightBlockView,
    trusting_period: Duration,
    clock_drift: Duration,
    now: Time,
) -> bool {
    candidate.time().plus(trusting_period) > now.nanos && candidate.time().nanos <= now.plus(
        clock_drift,
    )
}

/// The new header is later in time than the trusted one.
pub open spec fn monotonic_bft_time(trusted: LightBlockView, candidate: LightBlockView) -> bool {
    candidate.time().nanos > trusted.time().nanos
}

/// The new header is higher than the trusted one.
pub open spec fn monotonic_height(trusted: LightBlockView, candidate: LightBlockView) -> bool {
    candidate.height() > trusted.height()
}

/// The new block directly follows the trusted one.
pub open spec fn adjacent(trusted: LightBlockView, candidate: LightBlockView) -> bool {
    candidate.height() == trusted.height() + 1
}

/// The new block lies more than one height above the trusted one.
pub open spec fn skipping(trusted: LightBlockView, candidate: LightBlockView) -> bool {
    candidate.height() > trusted.height() + 1
}

/// The new header's validator set is the one the trusted header announced.
pub open spec fn matching_validator_set_hash(
    trusted: LightBlockView,
    candidate: LightBlockView,
) -> bool {
    candidate.signed_header.header.validators_hash
        == trusted.signed_header.header.next_validators_hash
}

/// The members of the trusted block's next validator set that stand behind the
/// new block's commit hold strictly more than `threshold` of that set's power.
pub open spec fn has_sufficient_validators_overlap(
    trusted: LightBlockView,
    candidate: LightBlockView,
    valid: Seq<bool>,
    threshold: TrustThreshold,
) -> bool {
    threshold.exceeded_by(
        endorsed_power(trusted.next_validators, candidate, valid),
        total_power(trusted.next_validators),
    )
}

/// The members of the new block's own validator set that stand behind its
/// commit hold strictly more than two thirds of that set's power.
pub open spec fn has_sufficient_signers_overlap(candidate: LightBlockView, valid: Seq<bool>) -> bool {
    two_thirds().exceeded_by(
        endorsed_power(candidate.validators, candidate, valid),
        total_power(candidate.validators),
    )
}

/// The outcome of the structural and temporal rules, in the order in which
/// they are applied.
pub open spec fn header_verdict(
    trusted: LightBlockView,
    candidate: LightBlockView,
    validators_hash: Digest,
    next_validators_hash: Digest,
    trusting_period: Duration,
    clock_drift: Duration,
    now: Time,
) -> Result<(), ErrorKind> {
    if !validator_sets_match(candidate, validators_hash) {
        Err(ErrorKind::InvalidValidatorSet)
    } else if !next_validator_sets_match(candidate, next_validators_hash) {
        Err(ErrorKind::InvalidValidatorSet)
    } else if adjacent(trusted, candidate) && !matching_validator_set_hash(trusted, candidate) {
        Err(ErrorKind::InvalidValidatorSet)
    } else if !not_expired(trusted, trusting_period, now) {
        Err(ErrorKind::TrustedStateExpired)
    } else if !header_in_trusting_period(candidate, trusting_period, clock_drift, now) {
        Err(ErrorKind::HeaderOutsideTrustingPeriod)
    } else if !monotonic_bft_time(trusted, candidate) {
        Err(ErrorKind::NonMonotonicBftTime)
    } else if !monotonic_height(trusted, candidate) {
        Err(ErrorKind::NonMonotonicHeight)
    } else {
        Ok(())
    }
}

/// The outcome of the rules on the commit and on voting power, in the order in
/// which they are applied.
pub open spec fn commit_verdict(
    trusted: LightBlockView,
    candidate: LightBlockView,
    valid: Seq<bool>,
    threshold: TrustThreshold,
) -> Result<(), ErrorKind> {
    if !valid_commit(candidate, valid) {
        Err(ErrorKind::InvalidCommit)
    } else if skipping(trusted, candidate) && !has_sufficient_validators_overlap(
        trusted,
        candidate,
        valid,
        threshold,
    ) {
        Err(ErrorKind::InsufficientOverlap)
    } else if !has_sufficient_signers_overlap(candidate, valid) {
        Err(ErrorKind::InsufficientSigners)
    } else {
        Ok(())
    }
}

/// Whether trust extends from `trusted` to `candidate`, and if not, the first
/// rule that stands against it.
pub open spec fn verdict(
    trusted: LightBlockView,
    candidate: LightBlockView,
    seen: ObservationsView,
    threshold: TrustThreshold,
    trusting_period: Duration,
    clock_drift: Duration,
    now: Time,
) -> Result<(), ErrorKind> {
    match header_verdict(
        trusted,
        candidate,
        seen.validators_hash,
        seen.next_validators_hash,
        trusting_period,
        clock_drift,
        now,
    ) {
        Err(kind) => Err(kind),
        Ok(_) => commit_verdict(trusted, candidate, seen.signatures_valid, threshold),
    }
}

pub fn check_validator_sets_match(block: &LightBlock, validators_hash: &Digest) -> (r: Result<
    (),
    ErrorKind,
>)
    ensures
        r == if validator_sets_match(block@, *validators_hash) {
            Ok::<(), ErrorKind>(())
        } else {
            Err::<(), ErrorKind>(ErrorKind::InvalidValidatorSet)
        },
{
    if validators_hash.same(&block.signed_header.header.validators_hash) {
        Ok(())
    } else {
        Err(ErrorKind::InvalidValidatorSet)
    }
}

pub fn check_next_validator_sets_match(block: &LightBlock, next_validators_hash: &Digest) -> (r:
    Result<(), ErrorKind>)
    ensures
        r == if next_validator_sets_match(block@, *next_validators_hash) {
            Ok::<(), ErrorKind>(())
        } else {
            Err::<(), ErrorKind>(ErrorKind::InvalidValidatorSet)
        },
{
    if next_validators_hash.same(&block.signed_header.header.next_validators_hash) {
        Ok(())
    } else {
        Err(ErrorKind::InvalidValidatorSet)
    }
}

pub fn check_header_hash_matches(header_hash: &Digest, expected: &Digest) -> (r: Result<
    (),
    ErrorKind,
>)
    ensures
        r == if header_hash_matches(*header_hash, *expected) {
            Ok::<(), ErrorKind>(())
        } else {
            Err::<(), ErrorKind>(ErrorKind::HeaderHashMismatch)
        },
{
    if header_hash.same(expected) {
        Ok(())
    } else {
        Err(ErrorKind::HeaderHashMismatch)
    }
}

/// Decides [`every_vote_valid`].
pub fn all_votes_valid(signatures: &Vec<CommitSig>, valid: &Vec<bool>) -> (r: bool)
    ensures
        r == every_vote_valid(signatures@, valid@),
{
    if valid.len() != signatures.len() {
        return false;
    }
    let mut i: usize = 0;
    while i < signatures.len()
        invariant
            i <= signatures.len(),
            valid.len() == signatures.len(),
            forall|k: int|
                0 <= k < i && (#[trigger] signatures@[k]).block_signer() is Some ==> valid@[k],
        decreases signatures.len() - i,
    {
        if signatures[i].block_signer_address().is_some() && !valid[i] {
            return false;
        }
        i = i + 1;
    }
    true
}

/// Decides [`no_duplicate_signer`].
pub fn signers_distinct(signatures: &Vec<CommitSig>) -> (r: bool)
    ensures
        r == no_duplicate_signer(signatures@),
{
    let mut j: usize = 0;
    while j < signatures.len()
        invariant
            j <= signatures.len(),
            forall|a: int, b: int|
                0 <= a < b < j && (#[trigger] signatures@[a]).signer() is Some
                    ==> signatures@[a].signer() != (#[trigger] signatures@[b]).signer(),
        decreases signatures.len() - j,
    {
        match signatures[j].signer_address() {
            Some(later) => {
                let mut i: usize = 0;
                while i < j
                    invariant
                        i <= j,
                        j < signatures.len(),
                        signatures@[j as int].signer() == Some(later),
                        forall|a: int|
                            0 <= a < i ==> (#[trigger] signatures@[a]).signer() != Some(later),
                    decreases j - i,
                {
                    match signatures[i].signer_address() {
                        Some(earlier) => {
                            if earlier.same(&later) {
                                return false;
                            }
                        },
                        None => {},
                    }
                    i = i + 1;
                }
            },
            None => {},
        }
        j = j + 1;
    }
    true
}

pub fn check_valid_commit(block: &LightBlock, valid: &Vec<bool>) -> (r: Result<(), ErrorKind>)
    ensures
        r == if valid_commit(block@, valid@) {
            Ok::<(), ErrorKind>(())
        } else {
            Err::<(), ErrorKind>(ErrorKind::InvalidCommit)
        },
{
    if all_votes_valid(&block.signed_header.commit.signatures, valid) && signers_distinct(
        &block.signed_header.commit.signatures,
    ) {
        Ok(())
    } else {
        Err(ErrorKind::InvalidCommit)
    }
}

pub fn check_not_expired(trusted: &LightBlock, trusting_period: Duration, now: Time) -> (r: Result<
    (),
    ErrorKind,
>)
    ensures
        r == if not_expired(trusted@, trusting_period, now) {
            Ok::<(), ErrorKind>(())
        } else {
            Err::<(), ErrorKind>(ErrorKind::TrustedStateExpired)
        },
{
    if trusted.signed_header.header.time.plus_exceeds(trusting_period, now) {
        Ok(())
    } else {
        Err(ErrorKind::TrustedStateExpired)
    }
}

pub fn check_header_in_trusting_period(
    candidate: &LightBlock,
    trusting_period: Duration,
    clock_drift: Duration,
    now: Time,
) -> (r: Result<(), ErrorKind>)
    ensures
        r == if header_in_trusting_period(candidate@, trusting_period, clock_drift, now) {
            Ok::<(), ErrorKind>(())
        } else {
            Err::<(), ErrorKind>(ErrorKind::HeaderOutsideTrustingPeriod)
        },
{
    let time = candidate.signed_header.header.time;
    if time.plus_exceeds(trusting_period, now) && time.within(now, clock_drift) {
        Ok(())
    } else {
        Err(ErrorKind::HeaderOutsideTrustingPeriod)
    }
}

pub fn check_monotonic_bft_time(trusted: &LightBlock, candidate: &LightBlock) -> (r: Result<
    (),
    ErrorKind,
>)
    ensures
        r == if monotonic_bft_time(trusted@, candidate@) {
            Ok::<(), ErrorKind>(())
        } else {
            Err::<(), ErrorKind>(ErrorKind::NonMonotonicBftTime)
        },
{
    if candidate.signed_header.header.time.after(trusted.signed_header.header.time) {
        Ok(())
    } else {
        Err(ErrorKind::NonMonotonicBftTime)
    }
}

pub fn check_monotonic_height(trusted: &LightBlock, candidate: &LightBlock) -> (r: Result<
    (),
    ErrorKind,
>)
    ensures
        r == if monotonic_height(trusted@, candidate@) {
            Ok::<(), ErrorKind>(())
        } else {
            Err::<(), ErrorKind>(ErrorKind::NonMonotonicHeight)
        },
{
    if candidate.height() > trusted.height() {
        Ok(())
    } else {
        Err(ErrorKind::NonMonotonicHeight)
    }
}

/// Decides [`adjacent`].
pub fn is_adjacent(trusted: &LightBlock, candidate: &LightBlock) -> (r: bool)
    ensures
        r == adjacent(trusted@, candidate@),
{
    let low = trusted.height();
    let high = candidate.height();
    high > low && high - low == 1
}

/// Decides [`skipping`].
pub fn is_skipping(trusted: &LightBlock, candidate: &LightBlock) -> (r: bool)
    ensures
        r == skipping(trusted@, candidate@),
{
    let low = trusted.height();
    let high = candidate.height();
    high > low && high - low > 1
}

pub fn check_matching_validator_set_hash(trusted: &LightBlock, candidate: &LightBlock) -> (r:
    Result<(), ErrorKind>)
    ensures
        r == if matching_validator_set_hash(trusted@, candidate@) {
            Ok::<(), ErrorKind>(())
        } else {
            Err::<(), ErrorKind>(ErrorKind::InvalidValidatorSet)
        },
{
    if candidate.signed_header.header.validators_hash.same(
        &trusted.signed_header.header.next_validators_hash,
    ) {
        Ok(())
    } else {
        Err(ErrorKind::InvalidValidatorSet)
    }
}

pub fn check_has_sufficient_validators_overlap(
    trusted: &LightBlock,
    candidate: &LightBlock,
    valid: &Vec<bool>,
    threshold: TrustThreshold,
) -> (r: Result<(), ErrorKind>)
    ensures
        r == if has_sufficient_validators_overlap(trusted@, candidate@, valid@, threshold) {
            Ok::<(), ErrorKind>(())
        } else {
            Err::<(), ErrorKind>(ErrorKind::InsufficientOverlap)
        },
{
    let total = trusted.next_validators.total_power();
    let signed = tally(&trusted.next_validators, candidate, valid);
    if threshold.is_exceeded_by(signed, total) {
        Ok(())
    } else {
        Err(ErrorKind::InsufficientOverlap)
    }
}

pub fn check_has_sufficient_signers_overlap(candidate: &LightBlock, valid: &Vec<bool>) -> (r:
    Result<(), ErrorKind>)
    ensures
        r == if has_sufficient_signers_overlap(candidate@, valid@) {
            Ok::<(), ErrorKind>(())
        } else {
            Err::<(), ErrorKind>(ErrorKind::InsufficientSigners)
        },
{
    let total = candidate.validators.total_power();
    let signed = tally(&candidate.validators, candidate, valid);
    let share = TrustThreshold { numerator: 2, denominator: 3 };
    if share.is_exceeded_by(signed, total) {
        Ok(())
    } else {
        Err(ErrorKind::InsufficientSigners)
    }
}

/// The rules as a component of the verifier. What each rule decides is fixed by
/// the predicate of the same name; an implementation is free in how it decides.
pub trait VerificationPredicates {
    fn check_validator_sets_match(&self, block: &LightBlock, validators_hash: &Digest) -> (r:
        Result<(), ErrorKind>)
        ensures
            r == if validator_sets_match(block@, *validators_hash) {
                Ok::<(), ErrorKind>(())
            } else {
                Err::<(), ErrorKind>(ErrorKind::InvalidValidatorSet)
            },
    ;

    fn check_next_validator_sets_match(
        &self,
        block: &LightBlock,
        next_validators_hash: &Digest,
    ) -> (r: Result<(), ErrorKind>)
        ensures
            r == if next_validator_sets_match(block@, *next_validators_hash) {
                Ok::<(), ErrorKind>(())
            } else {
                Err::<(), ErrorKind>(ErrorKind::InvalidValidatorSet)
            },
    ;

    fn check_header_hash_matches(&self, header_hash: &Digest, expected: &Digest) -> (r: Result<
        (),
        ErrorKind,
    >)
        ensures
            r == if header_hash_matches(*header_hash, *expected) {
                Ok::<(), ErrorKind>(())
            } else {
                Err::<(), ErrorKind>(ErrorKind::HeaderHashMismatch)
            },
    ;

    fn check_valid_commit(&self, block: &LightBlock, valid: &Vec<bool>) -> (r: Result<
        (),
        ErrorKind,
    >)
        ensures
            r == if valid_commit(block@, valid@) {
                Ok::<(), ErrorKind>(())
            } else {
                Err::<(), ErrorKind>(ErrorKind::InvalidCommit)
            },
    ;

    fn check_not_expired(&self, trusted: &LightBlock, trusting_period: Duration, now: Time) -> (r:
        Result<(), ErrorKind>)
        ensures
            r == if not_expired(trusted@, trusting_period, now) {
                Ok::<(), ErrorKind>(())
            } else {
                Err::<(), ErrorKind>(ErrorKind::TrustedStateExpired)
            },
    ;

    fn check_header_in_trusting_period(
        &self,
        candidate: &LightBlock,
        trusting_period: Duration,
        clock_drift: Duration,
        now: Time,
    ) -> (r: Result<(), ErrorKind>)
        ensures
            r == if header_in_trusting_period(candidate@, trusting_period, clock_drift, now) {
                Ok::<(), ErrorKind>(())
            } else {
                Err::<(), ErrorKind>(ErrorKind::HeaderOutsideTrustingPeriod)
            },
    ;

    fn check_monotonic_bft_time(&self, trusted: &LightBlock, candidate: &LightBlock) -> (r:
        Result<(), ErrorKind>)
        ensures
            r == if monotonic_bft_time(trusted@, candidate@) {
                Ok::<(), ErrorKind>(())
            } else {
                Err::<(), ErrorKind>(ErrorKind::NonMonotonicBftTime)
            },
    ;

    fn check_monotonic_height(&self, trusted: &LightBlock, candidate: &LightBlock) -> (r: Result<
        (),
        ErrorKind,
    >)
        ensures
            r == if monotonic_height(trusted@, candidate@) {
                Ok::<(), ErrorKind>(())
            } else {
                Err::<(), ErrorKind>(ErrorKind::NonMonotonicHeight)
            },
    ;

    fn check_matching_validator_set_hash(&self, trusted: &LightBlock, candidate: &LightBlock) -> (r:
        Result<(), ErrorKind>)
        ensures
            r == if matching_validator_set_hash(trusted@, candidate@) {
                Ok::<(), ErrorKind>(())
            } else {
                Err::<(), ErrorKind>(ErrorKind::InvalidValidatorSet)
            },
    ;

    fn check_has_sufficient_validators_overlap<V: VotingPowerCalculator>(
        &self,
        calculator: &V,
        trusted: &LightBlock,
        candidate: &LightBlock,
        valid: &Vec<bool>,
        threshold: TrustThreshold,
    ) -> (r: Result<(), ErrorKind>)
        ensures
            r == if has_sufficient_validators_overlap(trusted@, candidate@, valid@, threshold) {
                Ok::<(), ErrorKind>(())
            } else {
                Err::<(), ErrorKind>(ErrorKind::InsufficientOverlap)
            },
    ;

    fn check_has_sufficient_signers_overlap<V: VotingPowerCalculator>(
        &self,
        calculator: &V,
        candidate: &LightBlock,
        valid: &Vec<bool>,
    ) -> (r: Result<(), ErrorKind>)
        ensures
            r == if has_sufficient_signers_overlap(candidate@, valid@) {
                Ok::<(), ErrorKind>(())
            } else {
                Err::<(), ErrorKind>(ErrorKind::InsufficientSigners)
            },
    ;
}

/// The predicates the client comes with.
#[derive(Clone, Copy, Debug, PartialEq, Eq)]
pub struct ProdPredicates;

impl VerificationPredicates for ProdPredicates {
    fn check_validator_sets_match(&self, block: &LightBlock, validators_hash: &Digest) -> (r:
        Result<(), ErrorKind>) {
        check_validator_sets_match(block, validators_hash)
    }

    fn check_next_validator_sets_match(
        &self,
        block: &LightBlock,
        next_validators_hash: &Digest,
    ) -> (r: Result<(), ErrorKind>) {
        check_next_validator_sets_match(block, next_validators_hash)
    }

    fn check_header_hash_matches(&self, header_hash: &Digest, expected: &Digest) -> (r: Result<
        (),
        ErrorKind,
    >) {
        check_header_hash_matches(header_hash, expected)
    }

    fn check_valid_commit(&self, block: &LightBlock, valid: &Vec<bool>) -> (r: Result<
        (),
        ErrorKind,
    >) {
        check_valid_commit(block, valid)
    }

    fn check_not_expired(&self, trusted: &LightBlock, trusting_period: Duration, now: Time) -> (r:
        Result<(), ErrorKind>) {
        check_not_expired(trusted, trusting_period, now)
    }

    fn check_header_in_trusting_period(
        &self,
        candidate: &LightBlock,
        trusting_period: Duration,
        clock_drift: Duration,
        now: Time,
    ) -> (r: Result<(), ErrorKind>) {
        check_header_in_trusting_period(candidate, trusting_period, clock_drift, now)
    }

    fn check_monotonic_bft_time(&self, trusted: &LightBlock, candidate: &LightBlock) -> (r:
        Result<(), ErrorKind>) {
        check_monotonic_bft_time(trusted, candidate)
    }

    fn check_monotonic_height(&self, trusted: &LightBlock, candidate: &LightBlock) -> (r: Result<
        (),
        ErrorKind,
    >) {
        check_monotonic_height(trusted, candidate)
    }

    fn check_matching_validator_set_hash(&self, trusted: &LightBlock, candidate: &LightBlock) -> (r:
        Result<(), ErrorKind>) {
        check_matching_validator_set_hash(trusted, candidate)
    }

    fn check_has_sufficient_validators_overlap<V: VotingPowerCalculator>(
        &self,
        calculator: &V,
        trusted: &LightBlock,
        candidate: &LightBlock,
        valid: &Vec<bool>,
        threshold: TrustThreshold,
    ) -> (r: Result<(), ErrorKind>) {
        let total = calculator.total_power_of(&trusted.next_validators);
        let signed = calculator.voting_power_in(&trusted.next_validators, candidate, valid);
        if threshold.is_exceeded_by(signed, total) {
            Ok(())
        } else {
            Err(ErrorKind::InsufficientOverlap)
        }
    }

    fn check_has_sufficient_signers_overlap<V: VotingPowerCalculator>(
        &self,
        calculator: &V,
        candidate: &LightBlock,
        valid: &Vec<bool>,
    ) -> (r: Result<(), ErrorKind>) {
        let total = calculator.total_power_of(&candidate.validators);
        let signed = calculator.voting_power_in(&candidate.validators, candidate, valid);
        let share = TrustThreshold { numerator: 2, denominator: 3 };
        if share.is_exceeded_by(signed, total) {
            Ok(())
        } else {
            Err(ErrorKind::InsufficientSigners)
        }
    }
}

/// Applies the structural and the temporal rules.
pub fn check_header<P: VerificationPredicates>(
    predicates: &P,
    trusted: &LightBlock,
    candidate: &LightBlock,
    validators_hash: &Digest,
    next_validators_hash: &Digest,
    trusting_period: Duration,
    clock_drift: Duration,
    now: Time,
) -> (r: Result<(), ErrorKind>)
    ensures
        r == header_verdict(
            trusted@,
            candidate@,
            *validators_hash,
            *next_validators_hash,
            trusting_period,
            clock_drift,
            now,
        ),
{
    predicates.check_validator_sets_match(candidate, validators_hash)?;
    predicates.check_next_validator_sets_match(candidate, next_validators_hash)?;
    if is_adjacent(trusted, candidate) {
        predicates.check_matching_validator_set_hash(trusted, candidate)?;
    }
    predicates.check_not_expired(trusted, trusting_period, now)?;
    predicates.check_header_in_trusting_period(candidate, trusting_period, clock_drift, now)?;
    predicates.check_monotonic_bft_time(trusted, candidate)?;
    predicates.check_monotonic_height(trusted, candidate)?;
    Ok(())
}

/// Applies the rules on the commit and on voting power.
pub fn check_commit<P: VerificationPredicates, V: VotingPowerCalculator>(
    predicates: &P,
    calculator: &V,
    trusted: &LightBlock,
    candidate: &LightBlock,
    valid: &Vec<bool>,
    threshold: TrustThreshold,
) -> (r: Result<(), ErrorKind>)
    ensures
        r == commit_verdict(trusted@, candidate@, valid@, threshold),
{
    predicates.check_valid_commit(candidate, valid)?;
    if is_skipping(trusted, candidate) {
        predicates.check_has_sufficient_validators_overlap(
            calculator,
            trusted,
            candidate,
            valid,
            threshold,
        )?;
    }
    predicates.check_has_sufficient_signers_overlap(calculator, candidate, valid)?;
    Ok(())
}

/// Decides whether trust extends from `trusted` to `candidate`, given what the
/// hashing and signature services reported about `candidate`.
pub fn decide<P: VerificationPredicates, V: VotingPowerCalculator>(
    predicates: &P,
    calculator: &V,
    trusted: &LightBlock,
    candidate: &LightBlock,
    seen: &Observations,
    threshold: TrustThreshold,
    trusting_period: Duration,
    clock_drift: Duration,
    now: Time,
) -> (r: Result<(), ErrorKind>)
    ensures
        r == verdict(trusted@, candidate@, seen@, threshold, trusting_period, clock_drift, now),
{
    check_header(
        predicates,
        trusted,
        candidate,
        &seen.validators_hash,
        &seen.next_validators_hash,
        trusting_period,
        clock_drift,
        now,
    )?;
    check_commit(predicates, calculator, trusted, candidate, &seen.signatures_valid, threshold)
}

/// A block that directly follows the trusted one and whose validator set is
/// not the one the trusted header announced is rejected for its validator
/// set, never for insufficient overlap.
pub proof fn lemma_adjacent_mismatch_is_invalid_validator_set(
    trusted: LightBlockView,
    candidate: LightBlockView,
    seen: ObservationsView,
    threshold: TrustThreshold,
    trusting_period: Duration,
    clock_drift: Duration,
    now: Time,
)
    requires
        adjacent(trusted, candidate),
        !matching_validator_set_hash(trusted, candidate),
    ensures
        verdict(trusted, candidate, seen, threshold, trusting_period, clock_drift, now) == Err::<
            (),
            ErrorKind,
        >(ErrorKind::InvalidValidatorSet),
{
}

/// With a trusting period of zero, a trusted block is expired at any moment
/// that is not before its own time.
pub proof fn lemma_zero_trusting_period_expires(trusted: LightBlockView, now: Time)
    requires
        now.nanos >= trusted.time().nanos,
    ensures
        !not_expired(trusted, Duration { nanos: 0 }, now),
{
}

/// A threshold of one cannot be exceeded: no block is ever skipped to, so that
/// only adjacent blocks extend trust.
pub proof fn lemma_full_threshold_forbids_skipping(
    trusted: LightBlockView,
    candidate: LightBlockView,
    valid: Seq<bool>,
    threshold: TrustThreshold,
)
    requires
        threshold.numerator == threshold.denominator,
    ensures
        !has_sufficient_validators_overlap(trusted, candidate, valid, threshold),
        skipping(trusted, candidate) ==> commit_verdict(trusted, candidate, valid, threshold)
            is Err,
{
    lemma_endorsed_power_bounded(trusted.next_validators, candidate, valid);
    let part = endorsed_power(trusted.next_validators, candidate, valid);
    let whole = total_power(trusted.next_validators);
    let d = threshold.denominator as nat;
    assert(part * d <= d * whole) by (nonlinear_arith)
        requires
            part <= whole,
    ;
}

} // verus!
