//! The verifier: decides whether trust extends from a trusted block to a
//! candidate. It gathers what the hashing and signature services say about the
//! candidate and applies the rules to it. It keeps no state and performs no I/O.

use crate::capabilities::{HeaderHasher, CommitValidator};
use crate::errors::ErrorKind;
use crate::predicates::{
    Observations, ObservationsView, ProdPredicates, VerificationPredicates, check_commit,
    check_header, header_hash_matches, next_validator_sets_match, validator_sets_match, verdict,
};
use crate::types::{Duration, LightBlock, LightBlockView, Time, TrustThreshold};
use crate::voting_power::{
    ProdVotingPowerCalculator, VotingPowerCalculator, find_validator, locate,
};
use vstd::prelude::*;

verus! {

/// A block the client extends trust from.
pub type TrustedState = LightBlock;

/// Why the verifier turned a light block down.
#[derive(Clone, Copy, Debug, PartialEq, Eq, Structural)]
pub enum VerifierError {
    InvalidLightBlock(ErrorKind),
}

/// A request to the verifier.
#[derive(Debug, PartialEq, Eq)]
pub enum VerifierInput {
    VerifyLightBlock(LightBlock),
}

/// The verifier's answer to a request it accepted.
#[derive(Debug, PartialEq, Eq)]
pub enum VerifierOutput {
    ValidLightBlock(TrustedState),
}

/// Applies the rules of the light client to a candidate block.
pub struct Verifier<
    P: VerificationPredicates,
    V: VotingPowerCalculator,
    C: CommitValidator,
    H: HeaderHasher,
> {
    /// Decides the single rules.
    pub predicates: P,
    /// Works out voting power.
    pub voting_power_calculator: V,
    /// Verifies the votes of a commit.
    pub commit_validator: C,
    /// Computes digests of headers and validator sets.
    pub header_hasher: H,
    /// How far ahead of the local clock a new header may lie.
    pub clock_drift: Duration,
}

/// A verifier with the predicates and the calculator the client comes with.
pub type ProdVerifier<H, S> = Verifier<ProdPredicates, ProdVotingPowerCalculator, S, H>;

impl<
    P: VerificationPredicates,
    V: VotingPowerCalculator,
    C: CommitValidator,
    H: HeaderHasher,
> Verifier<P, V, C, H> {
    pub fn new(
        predicates: P,
        voting_power_calculator: V,
        commit_validator: C,
        header_hasher: H,
        clock_drift: Duration,
    ) -> (v: Self)
        ensures
            v.predicates == predicates,
            v.voting_power_calculator == voting_power_calculator,
            v.commit_validator == commit_validator,
            v.header_hasher == header_hasher,
            v.clock_drift == clock_drift,
    {
        Verifier { predicates, voting_power_calculator, commit_validator, header_hasher, clock_drift }
    }

    /// Whether slot `i` of the candidate's commit holds a vote for the block by
    /// a member of the candidate's validator set, validly signed under the key
    /// that the set lists for that member.
    pub open spec fn vote_holds(&self, candidate: LightBlockView, i: int) -> bool {
        match candidate.signatures()[i].block_signer() {
            Some(address) => match find_validator(candidate.validators, address) {
                Some(j) => self.commit_validator.vouches(
                    candidate.validators[j].public_key,
                    candidate.signed_header,
                    i as usize,
                ),
                None => false,
            },
            None => false,
        }
    }

    /// What the services say about `candidate`.
    pub open spec fn observes(&self, candidate: LightBlockView) -> ObservationsView {
        ObservationsView {
            validators_hash: self.header_hasher.validators_digest(candidate.validators),
            next_validators_hash: self.header_hasher.validators_digest(candidate.next_validators),
            signatures_valid: Seq::new(
                candidate.signatures().len(),
                |i: int| self.vote_holds(candidate, i),
            ),
        }
    }

    /// The verifier's decision on `candidate`, as a function of its inputs.
    pub open spec fn verdict_on(
        &self,
        trusted: LightBlockView,
        candidate: LightBlockView,
        threshold: TrustThreshold,
        trusting_period: Duration,
        now: Time,
    ) -> Result<(), ErrorKind> {
        verdict(
            trusted,
            candidate,
            self.observes(candidate),
            threshold,
            trusting_period,
            self.clock_drift,
            now,
        )
    }

    /// Whether the verifier accepts `candidate` on the strength of `trusted`.
    pub open spec fn accepts(
        &self,
        trusted: LightBlockView,
        candidate: LightBlockView,
        threshold: TrustThreshold,
        trusting_period: Duration,
        now: Time,
    ) -> bool {
        self.verdict_on(trusted, candidate, threshold, trusting_period, now) is Ok
    }

    /// Whether `block` is what it claims to be: its validator sets hash to what
    /// its header commits to, and its header hashes to the block identifier its
    /// commit signs.
    pub open spec fn ingest_verdict(&self, block: LightBlockView) -> Result<(), ErrorKind> {
        if !validator_sets_match(block, self.header_hasher.validators_digest(block.validators)) {
            Err(ErrorKind::InvalidValidatorSet)
        } else if !next_validator_sets_match(
            block,
            self.header_hasher.validators_digest(block.next_validators),
        ) {
            Err(ErrorKind::InvalidValidatorSet)
        } else if !header_hash_matches(
            self.header_hasher.header_digest(block.signed_header.header),
            block.signed_header.commit.block_id,
        ) {
            Err(ErrorKind::HeaderHashMismatch)
        } else {
            Ok(())
        }
    }

    /// Inspects a block as it comes in from a peer.
    pub fn inspect(&self, block: &LightBlock) -> (r: Result<(), ErrorKind>)
        ensures
            r == self.ingest_verdict(block@),
    {
        let validators_hash = self.header_hasher.hash_validators(&block.validators);
        self.predicates.check_validator_sets_match(block, &validators_hash)?;
        let next_validators_hash = self.header_hasher.hash_validators(&block.next_validators);
        self.predicates.check_next_validator_sets_match(block, &next_validators_hash)?;
        let header_hash = self.header_hasher.hash_header(&block.signed_header.header);
        self.predicates.check_header_hash_matches(
            &header_hash,
            &block.signed_header.commit.block_id,
        )
    }

    /// Asks the signature service about slot `i` of the candidate's commit.
    fn verify_vote(&self, candidate: &LightBlock, i: usize) -> (ok: bool)
        requires
            i < candidate@.signatures().len(),
        ensures
            ok == self.vote_holds(candidate@, i as int),
    {
        match candidate.signed_header.commit.signatures[i].block_signer_address() {
            Some(address) => match locate(&candidate.validators, &address) {
                Some(j) => {
                    let member = candidate.validators.get(j);
                    self.commit_validator.validate_vote(
                        &member.public_key,
                        &candidate.signed_header,
                        i,
                    )
                },
                None => false,
            },
            None => false,
        }
    }

    /// Asks the signature service about every slot of the candidate's commit.
    fn verify_votes(&self, candidate: &LightBlock) -> (valid: Vec<bool>)
        ensures
            valid@ == self.observes(candidate@).signatures_valid,
    {
        let n = candidate.signed_header.commit.signatures.len();
        let mut valid: Vec<bool> = Vec::new();
        let mut i: usize = 0;
        while i < n
            invariant
                i <= n,
                n == candidate@.signatures().len(),
                valid@.len() == i,
                forall|k: int| 0 <= k < i ==> valid@[k] == self.vote_holds(candidate@, k),
            decreases n - i,
        {
            let ok = self.verify_vote(candidate, i);
            valid.push(ok);
            i = i + 1;
        }
        valid
    }

    /// Gathers what the services say about `candidate`.
    pub fn observe(&self, candidate: &LightBlock) -> (seen: Observations)
        ensures
            seen@ == self.observes(candidate@),
    {
        let validators_hash = self.header_hasher.hash_validators(&candidate.validators);
        let next_validators_hash = self.header_hasher.hash_validators(&candidate.next_validators);
        let signatures_valid = self.verify_votes(candidate);
        Observations { validators_hash, next_validators_hash, signatures_valid }
    }

    /// Decides whether trust extends from `trusted` to `candidate`. The cheap
    /// rules run first; signatures are only verified once they all hold.
    pub fn verify(
        &self,
        trusted: &LightBlock,
        candidate: &LightBlock,
        threshold: TrustThreshold,
        trusting_period: Duration,
        now: Time,
    ) -> (r: Result<(), ErrorKind>)
        ensures
            r == self.verdict_on(trusted@, candidate@, threshold, trusting_period, now),
    {
        let validators_hash = self.header_hasher.hash_validators(&candidate.validators);
        let next_validators_hash = self.header_hasher.hash_validators(&candidate.next_validators);
        check_header(
            &self.predicates,
            trusted,
            candidate,
            &validators_hash,
            &next_validators_hash,
            trusting_period,
            self.clock_drift,
            now,
        )?;
        let valid = self.verify_votes(candidate);
        check_commit(
            &self.predicates,
            &self.voting_power_calculator,
            trusted,
            candidate,
            &valid,
            threshold,
        )
    }

    /// Verifies `light_block` against `trusted_state`. On success the light
    /// block is handed back as the new trusted state; otherwise the error names
    /// the first rule that stands against it.
    pub fn verify_light_block(
        &self,
        trusted_state: TrustedState,
        light_block: LightBlock,
        trust_threshold: TrustThreshold,
        trusting_period: Duration,
        now: Time,
    ) -> (r: Result<TrustedState, VerifierError>)
        ensures
            match self.verdict_on(
                trusted_state@,
                light_block@,
                trust_threshold,
                trusting_period,
                now,
            ) {
                Ok(_) => r == Ok::<TrustedState, VerifierError>(light_block),
                Err(kind) => r == Err::<TrustedState, VerifierError>(
                    VerifierError::InvalidLightBlock(kind),
                ),
            },
    {
        match self.verify(&trusted_state, &light_block, trust_threshold, trusting_period, now) {
            Ok(_) => Ok(light_block),
            Err(kind) => Err(VerifierError::InvalidLightBlock(kind)),
        }
    }

    /// Serves a request: verifies the light block it carries against
    /// `trusted_state`.
    pub fn process(
        &self,
        trusted_state: TrustedState,
        input: VerifierInput,
        trust_threshold: TrustThreshold,
        trusting_period: Duration,
        now: Time,
    ) -> (r: Result<VerifierOutput, VerifierError>)
        ensures
            match self.verdict_on(
                trusted_state@,
                input->VerifyLightBlock_0@,
                trust_threshold,
                trusting_period,
                now,
            ) {
                Ok(_) => r == Ok::<VerifierOutput, VerifierError>(
                    VerifierOutput::ValidLightBlock(input->VerifyLightBlock_0),
                ),
                Err(kind) => r == Err::<VerifierOutput, VerifierError>(
                    VerifierError::InvalidLightBlock(kind),
                ),
            },
    {
        match input {
            VerifierInput::VerifyLightBlock(light_block) => {
                match self.verify_light_block(
                    trusted_state,
                    light_block,
                    trust_threshold,
                    trusting_period,
                    now,
                ) {
                    Ok(state) => Ok(VerifierOutput::ValidLightBlock(state)),
                    Err(e) => Err(e),
                }
            },
        }
    }
}

/// The verifier is a function of its inputs: whatever two runs of `verify` on
/// the same verifier, blocks, threshold, trusting period and time return, the
/// two results are equal.
pub proof fn lemma_verifier_is_pure<
    P: VerificationPredicates,
    V: VotingPowerCalculator,
    C: CommitValidator,
    H: HeaderHasher,
>(
    verifier: Verifier<P, V, C, H>,
    trusted: LightBlock,
    candidate: LightBlock,
    threshold: TrustThreshold,
    trusting_period: Duration,
    now: Time,
    first: Result<(), ErrorKind>,
    second: Result<(), ErrorKind>,
)
    requires
        call_ensures(
            Verifier::<P, V, C, H>::verify,
            (&verifier, &trusted, &candidate, threshold, trusting_period, now),
            first,
        ),
        call_ensures(
            Verifier::<P, V, C, H>::verify,
            (&verifier, &trusted, &candidate, threshold, trusting_period, now),
            second,
        ),
    ensures
        first == second,
{
}

} // verus!
