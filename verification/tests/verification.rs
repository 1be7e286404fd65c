use light_client::capabilities::{HeaderHasher, CommitValidator};
use light_client::errors::ErrorKind;
use light_client::fork_detector::{compare, conclude, is_justified, Comparison, Finding};
use light_client::predicates::{
    check_has_sufficient_signers_overlap, check_has_sufficient_validators_overlap,
    check_header_hash_matches, check_header_in_trusting_period, check_not_expired,
    check_valid_commit, decide, Observations, ProdPredicates, VerificationPredicates,
};
use light_client::types::{
    Commit, CommitSig, Digest, Duration, Header, Height, LightBlock, PeerId, PublicKey, Signature,
    SignedHeader, SignedHeaderView, Time, TrustThreshold, Validator, ValidatorAddress,
    ValidatorSeq, ValidatorSet,
};
use light_client::verification::{
    ProdVerifier, Verifier, VerifierError, VerifierInput, VerifierOutput,
};
use light_client::voting_power::{
    is_endorsed, locate, tally, ProdVotingPowerCalculator, VotingPowerCalculator,
};

const SECOND: u64 = 1_000_000_000;

fn mix(words: &[u64]) -> Digest {
    let mut state: u64 = 0xcbf2_9ce4_8422_2325;
    for word in words {
        state ^= *word;
        state = state.wrapping_mul(0x0000_0100_0000_01b3);
    }
    let mut bytes = [0u8; 32];
    for round in 0..4 {
        state = state.wrapping_mul(0x0000_0100_0000_01b3) ^ (round as u64);
        bytes[round * 8..round * 8 + 8].copy_from_slice(&state.to_be_bytes());
    }
    Digest { bytes }
}

fn word(digest: &Digest) -> u64 {
    let mut first = [0u8; 8];
    first.copy_from_slice(&digest.bytes[..8]);
    u64::from_be_bytes(first)
}

struct FakeHasher;

impl HeaderHasher for FakeHasher {
    fn header_digest(&self, _header: Header) -> Digest {
        unreachable!()
    }

    fn validators_digest(&self, _validators: ValidatorSeq) -> Digest {
        unreachable!()
    }

    fn hash_header(&self, header: &Header) -> Digest {
        mix(&[
            header.height,
            header.time.nanos,
            header.chain_id.len() as u64,
            word(&header.validators_hash),
            word(&header.next_validators_hash),
            word(&header.last_block_hash),
        ])
    }

    fn hash_validators(&self, validators: &ValidatorSet) -> Digest {
        let mut words = Vec::new();
        for i in 0..validators.len() {
            let member = validators.get(i);
            words.push(member.address.bytes[0] as u64);
            words.push(member.public_key.bytes[0] as u64);
            words.push(member.voting_power);
        }
        mix(&words)
    }
}

struct FakeSignatures;

impl CommitValidator for FakeSignatures {
    fn vouches(&self, _public_key: PublicKey, _signed_header: SignedHeaderView, _index: usize) -> bool {
        unreachable!()
    }

    fn validate_vote(&self, public_key: &PublicKey, signed_header: &SignedHeader, index: usize) -> bool {
        match signed_header.commit.signatures[index] {
            CommitSig::ForBlock { signature, .. } => {
                signature.bytes[0] != 0 && signature.bytes[0] == public_key.bytes[0]
            }
            _ => false,
        }
    }
}

fn peer(tag: u8) -> PeerId {
    PeerId { bytes: [tag; 20] }
}

fn validator(tag: u8, power: u64) -> Validator {
    Validator {
        address: ValidatorAddress { bytes: [tag; 20] },
        public_key: PublicKey { bytes: [tag; 32] },
        voting_power: power,
    }
}

fn set(members: &[Validator]) -> ValidatorSet {
    ValidatorSet::new(members.to_vec()).unwrap()
}

fn vote(signer: &Validator) -> CommitSig {
    CommitSig::ForBlock {
        validator: signer.address,
        signature: Signature { bytes: [signer.public_key.bytes[0]; 64] },
    }
}

fn block_at(
    height: Height,
    seconds: u64,
    validators: &[Validator],
    next_validators: &[Validator],
    signatures: Vec<CommitSig>,
) -> LightBlock {
    let header_hasher = FakeHasher;
    let header = Header {
        height,
        time: Time { nanos: seconds * SECOND },
        chain_id: "test-chain".to_string(),
        validators_hash: header_hasher.hash_validators(&set(validators)),
        next_validators_hash: header_hasher.hash_validators(&set(next_validators)),
        last_block_hash: Digest { bytes: [0; 32] },
    };
    let block_id = header_hasher.hash_header(&header);
    LightBlock {
        signed_header: SignedHeader {
            header,
            commit: Commit { height, round: 0, block_id, signatures },
        },
        validators: set(validators),
        next_validators: set(next_validators),
        provider: peer(1),
    }
}

fn block(
    height: Height,
    validators: &[Validator],
    next_validators: &[Validator],
    signers: &[Validator],
) -> LightBlock {
    block_at(height, height * 10, validators, next_validators, signers.iter().map(vote).collect())
}

fn a() -> Validator {
    validator(b'a', 30)
}

fn b() -> Validator {
    validator(b'b', 20)
}

fn c() -> Validator {
    validator(b'c', 50)
}

fn d() -> Validator {
    validator(b'd', 70)
}

fn trusted() -> LightBlock {
    block(100, &[a(), b()], &[a(), b(), c()], &[a(), b()])
}

fn third() -> TrustThreshold {
    TrustThreshold { numerator: 1, denominator: 3 }
}

fn hour() -> Duration {
    Duration { nanos: 3600 * SECOND }
}

fn at(seconds: u64) -> Time {
    Time { nanos: seconds * SECOND }
}

fn subject() -> ProdVerifier<FakeHasher, FakeSignatures> {
    Verifier::new(
        ProdPredicates,
        ProdVotingPowerCalculator,
        FakeSignatures,
        FakeHasher,
        Duration { nanos: 10 * SECOND },
    )
}

fn run(candidate: &LightBlock, threshold: TrustThreshold, period: Duration, now: Time) -> Result<(), ErrorKind> {
    subject().verify(&trusted(), candidate, threshold, period, now)
}

fn rejected(kind: ErrorKind) -> Result<(), ErrorKind> {
    Err(kind)
}

#[test]
fn accepts_adjacent_block() {
    let next = block(101, &[a(), b(), c()], &[a(), d()], &[a(), b(), c()]);
    assert_eq!(run(&next, third(), hour(), at(1100)), Ok(()));
}

#[test]
fn verify_light_block_hands_candidate_back() {
    let next = block(101, &[a(), b(), c()], &[a(), d()], &[a(), b(), c()]);
    let got = subject().verify_light_block(trusted(), next.clone(), third(), hour(), at(1100));
    assert_eq!(got, Ok(next));
}

#[test]
fn verify_light_block_names_the_rule() {
    let next = block(101, &[a(), d()], &[a(), d()], &[a(), d()]);
    let got = subject().verify_light_block(trusted(), next, third(), hour(), at(1100));
    assert_eq!(got, Err(VerifierError::InvalidLightBlock(ErrorKind::InvalidValidatorSet)));
}

#[test]
fn process_serves_a_request() {
    let next = block(101, &[a(), b(), c()], &[a(), d()], &[a(), b(), c()]);
    let got = subject().process(
        trusted(),
        VerifierInput::VerifyLightBlock(next.clone()),
        third(),
        hour(),
        at(1100),
    );
    assert_eq!(got, Ok(VerifierOutput::ValidLightBlock(next)));
    let bad = block(99, &[a(), b(), c()], &[a(), d()], &[a(), b(), c()]);
    let got = subject().process(
        trusted(),
        VerifierInput::VerifyLightBlock(bad),
        third(),
        hour(),
        at(1100),
    );
    assert_eq!(got, Err(VerifierError::InvalidLightBlock(ErrorKind::NonMonotonicBftTime)));
}

#[test]
fn two_runs_agree() {
    let candidates = vec![
        block(101, &[a(), b(), c()], &[a(), d()], &[a(), b(), c()]),
        block(110, &[a(), d()], &[a(), d()], &[a(), d()]),
        block(101, &[a(), d()], &[a(), d()], &[a(), d()]),
    ];
    for candidate in &candidates {
        let first = run(candidate, third(), hour(), at(1200));
        let second = run(candidate, third(), hour(), at(1200));
        assert_eq!(first, second);
    }
}

#[test]
fn own_validator_set_must_match_header() {
    let mut next = block(101, &[a(), b(), c()], &[a(), d()], &[a(), b(), c()]);
    next.validators = set(&[a(), b()]);
    assert_eq!(run(&next, third(), hour(), at(1100)), rejected(ErrorKind::InvalidValidatorSet));
}

#[test]
fn next_validator_set_must_match_header() {
    let mut next = block(101, &[a(), b(), c()], &[a(), d()], &[a(), b(), c()]);
    next.next_validators = set(&[a()]);
    assert_eq!(run(&next, third(), hour(), at(1100)), rejected(ErrorKind::InvalidValidatorSet));
}

#[test]
fn adjacent_mismatch_is_not_insufficient_overlap() {
    // d alone signs: were the block not adjacent, the overlap would be too small.
    let next = block(101, &[d()], &[d()], &[d()]);
    assert_eq!(run(&next, third(), hour(), at(1100)), rejected(ErrorKind::InvalidValidatorSet));
    let far = block(102, &[d()], &[d()], &[d()]);
    assert_eq!(run(&far, third(), hour(), at(1100)), rejected(ErrorKind::InsufficientOverlap));
}

#[test]
fn trusted_state_expires() {
    let next = block(101, &[a(), b(), c()], &[a(), d()], &[a(), b(), c()]);
    // The trusted block is dated 1000 s.
    assert_eq!(run(&next, third(), hour(), at(4599)), Ok(()));
    assert_eq!(run(&next, third(), hour(), at(4600)), rejected(ErrorKind::TrustedStateExpired));
    assert_eq!(
        check_not_expired(&trusted(), hour(), Time { nanos: 4600 * SECOND - 1 }),
        Ok(())
    );
    assert_eq!(
        check_not_expired(&trusted(), hour(), at(4600)),
        rejected(ErrorKind::TrustedStateExpired)
    );
}

#[test]
fn zero_trusting_period_expires_at_once() {
    let zero = Duration { nanos: 0 };
    assert_eq!(
        check_not_expired(&trusted(), zero, at(1000)),
        rejected(ErrorKind::TrustedStateExpired)
    );
    assert_eq!(
        check_not_expired(&trusted(), zero, at(5000)),
        rejected(ErrorKind::TrustedStateExpired)
    );
    // A clock that lags behind the trusted block is the one exception.
    assert_eq!(check_not_expired(&trusted(), zero, at(999)), Ok(()));
}

#[test]
fn header_ahead_of_the_clock() {
    let next = block(101, &[a(), b(), c()], &[a(), d()], &[a(), b(), c()]);
    let drift = Duration { nanos: 10 * SECOND };
    // Block 101 is dated 1010 s; the clock may lag by ten seconds.
    assert_eq!(check_header_in_trusting_period(&next, hour(), drift, at(1000)), Ok(()));
    assert_eq!(
        check_header_in_trusting_period(&next, hour(), drift, Time { nanos: 1000 * SECOND - 1 }),
        rejected(ErrorKind::HeaderOutsideTrustingPeriod)
    );
    assert_eq!(
        run(&next, third(), hour(), at(999)),
        rejected(ErrorKind::HeaderOutsideTrustingPeriod)
    );
    assert_eq!(
        check_header_in_trusting_period(&next, hour(), drift, at(1010 + 3600)),
        rejected(ErrorKind::HeaderOutsideTrustingPeriod)
    );
}

#[test]
fn time_must_increase() {
    let next = block_at(
        101,
        1000,
        &[a(), b(), c()],
        &[a(), d()],
        vec![vote(&a()), vote(&b()), vote(&c())],
    );
    assert_eq!(run(&next, third(), hour(), at(1100)), rejected(ErrorKind::NonMonotonicBftTime));
}

#[test]
fn height_must_increase() {
    let same = block_at(
        100,
        1005,
        &[a(), b(), c()],
        &[a(), d()],
        vec![vote(&a()), vote(&b()), vote(&c())],
    );
    assert_eq!(run(&same, third(), hour(), at(1100)), rejected(ErrorKind::NonMonotonicHeight));
}

#[test]
fn forged_signature_invalidates_commit() {
    let forged = CommitSig::ForBlock {
        validator: c().address,
        signature: Signature { bytes: [b'x'; 64] },
    };
    let next = block_at(
        101,
        1010,
        &[a(), b(), c()],
        &[a(), d()],
        vec![vote(&a()), vote(&b()), forged],
    );
    assert_eq!(run(&next, third(), hour(), at(1100)), rejected(ErrorKind::InvalidCommit));
}

#[test]
fn stranger_in_commit_invalidates_it() {
    let next = block_at(
        101,
        1010,
        &[a(), b(), c()],
        &[a(), d()],
        vec![vote(&a()), vote(&b()), vote(&c()), vote(&d())],
    );
    assert_eq!(run(&next, third(), hour(), at(1100)), rejected(ErrorKind::InvalidCommit));
}

#[test]
fn duplicate_signer_invalidates_commit() {
    let next = block_at(
        101,
        1010,
        &[a(), b(), c()],
        &[a(), d()],
        vec![vote(&a()), vote(&b()), vote(&c()), vote(&a())],
    );
    assert_eq!(run(&next, third(), hour(), at(1100)), rejected(ErrorKind::InvalidCommit));
    let nil = CommitSig::Nil { validator: a().address, signature: Signature { bytes: [0; 64] } };
    let next = block_at(
        101,
        1010,
        &[a(), b(), c()],
        &[a(), d()],
        vec![vote(&a()), vote(&b()), vote(&c()), nil],
    );
    assert_eq!(run(&next, third(), hour(), at(1100)), rejected(ErrorKind::InvalidCommit));
}

#[test]
fn absent_and_nil_votes_are_tolerated() {
    let nil = CommitSig::Nil { validator: b().address, signature: Signature { bytes: [0; 64] } };
    let next = block_at(
        101,
        1010,
        &[a(), b(), c()],
        &[a(), d()],
        vec![vote(&a()), nil, CommitSig::Absent, vote(&c())],
    );
    // a and c hold 80 of 100.
    assert_eq!(run(&next, third(), hour(), at(1100)), Ok(()));
}

#[test]
fn two_thirds_must_be_exceeded() {
    let x = validator(b'x', 2);
    let y = validator(b'y', 1);
    let seed = block(100, &[x, y], &[x, y], &[x, y]);
    let exactly = block(101, &[x, y], &[x, y], &[x]);
    assert_eq!(
        subject().verify(&seed, &exactly, third(), hour(), at(1100)),
        rejected(ErrorKind::InsufficientSigners)
    );
    let valid = vec![true];
    assert_eq!(
        check_has_sufficient_signers_overlap(&exactly, &valid),
        rejected(ErrorKind::InsufficientSigners)
    );
    let all = block(101, &[x, y], &[x, y], &[x, y]);
    assert_eq!(subject().verify(&seed, &all, third(), hour(), at(1100)), Ok(()));
}

#[test]
fn overlap_must_exceed_threshold() {
    // Of the trusted next set (a 30, b 20, c 50), only a signs: 30 of 100.
    let far = block(110, &[a(), d()], &[a(), d()], &[a(), d()]);
    assert_eq!(run(&far, third(), hour(), at(1200)), rejected(ErrorKind::InsufficientOverlap));
    // c signs: 50 of 100.
    let far = block(110, &[c(), d()], &[a(), d()], &[c(), d()]);
    assert_eq!(run(&far, third(), hour(), at(1200)), Ok(()));
    // Exactly one third is not enough.
    let p = validator(b'p', 1);
    let q = validator(b'q', 2);
    let seed = block(100, &[p, q], &[p, q], &[p, q]);
    let skip = block(110, &[p, d()], &[p, d()], &[p, d()]);
    assert_eq!(
        subject().verify(&seed, &skip, third(), hour(), at(1200)),
        rejected(ErrorKind::InsufficientOverlap)
    );
    let valid = vec![true, true];
    assert_eq!(tally(&seed.next_validators, &skip, &valid), 1);
    assert_eq!(
        check_has_sufficient_validators_overlap(&seed, &skip, &valid, third()),
        rejected(ErrorKind::InsufficientOverlap)
    );
    let quarter = TrustThreshold { numerator: 1, denominator: 4 };
    assert_eq!(check_has_sufficient_validators_overlap(&seed, &skip, &valid, quarter), Ok(()));
}

#[test]
fn full_threshold_forbids_skipping() {
    let one = TrustThreshold { numerator: 1, denominator: 1 };
    // Every member of the trusted next set signs, and still the block is not skipped to.
    let far = block(110, &[a(), b(), c()], &[a(), d()], &[a(), b(), c()]);
    assert_eq!(run(&far, one, hour(), at(1200)), rejected(ErrorKind::InsufficientOverlap));
    // With one missing, likewise.
    let far = block(110, &[a(), b(), c()], &[a(), d()], &[a(), c()]);
    assert_eq!(run(&far, one, hour(), at(1200)), rejected(ErrorKind::InsufficientOverlap));
    // The adjacent block is not affected.
    let next = block(101, &[a(), b(), c()], &[a(), d()], &[a(), b(), c()]);
    assert_eq!(run(&next, one, hour(), at(1100)), Ok(()));
}

#[test]
fn member_with_another_key_does_not_count() {
    // The candidate lists a under another key than the trusted set does.
    let other_a = Validator { public_key: PublicKey { bytes: [b'z'; 32] }, ..a() };
    let sig = CommitSig::ForBlock {
        validator: other_a.address,
        signature: Signature { bytes: [b'z'; 64] },
    };
    let far = block_at(110, 1100, &[other_a, d()], &[a(), d()], vec![sig, vote(&d())]);
    let valid = vec![true, true];
    assert!(is_endorsed(&other_a, &far, &valid));
    assert!(!is_endorsed(&a(), &far, &valid));
    assert_eq!(tally(&trusted().next_validators, &far, &valid), 0);
    assert_eq!(tally(&far.validators, &far, &valid), 100);
}

#[test]
fn decide_goes_by_what_was_observed() {
    let next = block(101, &[a(), b(), c()], &[a(), d()], &[a(), b(), c()]);
    let drift = Duration { nanos: 10 * SECOND };
    let seen = subject().observe(&next);
    assert_eq!(seen.validators_hash, next.signed_header.header.validators_hash);
    assert_eq!(seen.signatures_valid, vec![true, true, true]);
    assert_eq!(decide(&ProdPredicates, &ProdVotingPowerCalculator, &trusted(), &next, &seen, third(), hour(), drift, at(1100)), Ok(()));
    let doubted = Observations {
        validators_hash: seen.validators_hash,
        next_validators_hash: seen.next_validators_hash,
        signatures_valid: vec![true, true, false],
    };
    assert_eq!(
        decide(&ProdPredicates, &ProdVotingPowerCalculator, &trusted(), &next, &doubted, third(), hour(), drift, at(1100)),
        rejected(ErrorKind::InvalidCommit)
    );
    assert_eq!(check_valid_commit(&next, &vec![true, true]), rejected(ErrorKind::InvalidCommit));
    let other = Observations {
        validators_hash: Digest { bytes: [9; 32] },
        next_validators_hash: seen.next_validators_hash,
        signatures_valid: vec![true, true, true],
    };
    assert_eq!(
        decide(&ProdPredicates, &ProdVotingPowerCalculator, &trusted(), &next, &other, third(), hour(), drift, at(1100)),
        rejected(ErrorKind::InvalidValidatorSet)
    );
}

#[test]
fn inspect_holds_block_to_its_own_claims() {
    let next = block(101, &[a(), b(), c()], &[a(), d()], &[a(), b(), c()]);
    assert_eq!(subject().inspect(&next), Ok(()));
    let mut torn = next.clone();
    torn.signed_header.commit.block_id = Digest { bytes: [1; 32] };
    assert_eq!(subject().inspect(&torn), rejected(ErrorKind::HeaderHashMismatch));
    let mut swapped = next;
    swapped.next_validators = set(&[b()]);
    assert_eq!(subject().inspect(&swapped), rejected(ErrorKind::InvalidValidatorSet));
    let one = Digest { bytes: [1; 32] };
    let two = Digest { bytes: [2; 32] };
    assert_eq!(check_header_hash_matches(&one, &one), Ok(()));
    assert_eq!(check_header_hash_matches(&one, &two), rejected(ErrorKind::HeaderHashMismatch));
}

#[test]
fn locate_finds_first_member_with_address() {
    let twin = Validator { voting_power: 5, ..a() };
    let members = set(&[b(), a(), twin]);
    assert_eq!(locate(&members, &a().address), Some(1));
    assert_eq!(locate(&members, &d().address), None);
}

#[test]
fn threshold_is_compared_without_rounding() {
    let third = third();
    assert!(!third.is_exceeded_by(33, 100));
    assert!(third.is_exceeded_by(34, 100));
    assert!(!third.is_exceeded_by(1, 3));
    assert!(third.is_exceeded_by(2, 3));
    let big = TrustThreshold { numerator: u64::MAX - 1, denominator: u64::MAX };
    assert!(big.is_exceeded_by(u64::MAX, u64::MAX));
    assert!(!big.is_exceeded_by(u64::MAX - 1, u64::MAX));
    assert!(third.is_valid());
    assert!(!TrustThreshold { numerator: 0, denominator: 3 }.is_valid());
    assert!(!TrustThreshold { numerator: 4, denominator: 3 }.is_valid());
    assert!(TrustThreshold { numerator: 3, denominator: 3 }.is_valid());
}

/// The blocks of a witness from which trust extends from the seed to 110 by
/// way of 105, the last one dated `seconds`.
fn witness_blocks(seconds: u64) -> Vec<LightBlock> {
    let d60 = validator(b'd', 60);
    let f40 = validator(b'f', 40);
    vec![
        block(105, &[c(), d()], &[d60, f40], &[c(), d()]),
        block_at(110, seconds, &[a(), d()], &[a(), d()], vec![vote(&a()), vote(&d())]),
    ]
}

fn concluded(path: &Vec<Height>, blocks: &Vec<LightBlock>) -> Finding {
    let verified = witness_blocks(1100).pop().unwrap();
    conclude(&subject(), &verified, &trusted(), path, blocks, third(), hour(), at(1200))
}

#[test]
fn witness_without_answer_is_unreachable() {
    assert_eq!(concluded(&vec![105, 110], &vec![]), Finding::Unreachable);
}

#[test]
fn witness_with_the_same_block_agrees() {
    let same = witness_blocks(1100);
    assert_eq!(concluded(&vec![105, 110], &same), Finding::Agrees);
    // Agreement needs nothing but the block itself.
    assert_eq!(concluded(&vec![105, 110], &vec![same[1].clone()]), Finding::Agrees);
    assert_eq!(
        compare(&FakeHasher, &same[1], &witness_blocks(1100)[1]),
        Comparison::Same
    );
}

#[test]
fn witness_with_a_justified_block_shows_a_fork() {
    let theirs = witness_blocks(1101);
    let verified = witness_blocks(1100).pop().unwrap();
    assert_eq!(compare(&FakeHasher, &verified, &theirs[1]), Comparison::Conflicting);
    assert!(is_justified(
        &subject(),
        &trusted(),
        &theirs,
        &vec![105, 110],
        third(),
        hour(),
        at(1200)
    ));
    assert_eq!(
        concluded(&vec![105, 110], &theirs),
        Finding::Fork(theirs[1].signed_header.clone())
    );
}

#[test]
fn witness_that_cannot_justify_its_block_is_faulty() {
    let theirs = witness_blocks(1101);
    // Without the block at 105 the overlap with the seed is too small.
    assert_eq!(concluded(&vec![110], &vec![theirs[1].clone()]), Finding::Faulty);
    // The blocks do not lie at the heights of the path.
    assert_eq!(concluded(&vec![104, 110], &theirs), Finding::Faulty);
    assert_eq!(concluded(&vec![105], &theirs), Finding::Faulty);
    assert_eq!(concluded(&vec![], &vec![theirs[1].clone()]), Finding::Faulty);
    // Its own validators did not sign its block.
    let unsigned = vec![
        theirs[0].clone(),
        block_at(110, 1101, &[a(), d()], &[a(), d()], vec![vote(&a())]),
    ];
    assert_eq!(concluded(&vec![105, 110], &unsigned), Finding::Faulty);
}

#[test]
fn witness_with_a_block_of_another_height_is_faulty() {
    let d60 = validator(b'd', 60);
    let f40 = validator(b'f', 40);
    let elsewhere = block(105, &[c(), d()], &[d60, f40], &[c(), d()]);
    let verified = witness_blocks(1100).pop().unwrap();
    assert_eq!(compare(&FakeHasher, &verified, &elsewhere), Comparison::Elsewhere);
    assert_eq!(concluded(&vec![105], &vec![elsewhere]), Finding::Faulty);
}

#[test]
fn components_decide_what_the_rules_say() {
    let next = block(101, &[a(), b(), c()], &[a(), d()], &[a(), b(), c()]);
    let calculator = ProdVotingPowerCalculator;
    assert_eq!(calculator.total_power_of(&next.validators), 100);
    assert_eq!(calculator.voting_power_in(&next.validators, &next, &vec![true, false, true]), 80);
    let predicates = ProdPredicates;
    assert_eq!(
        predicates.check_has_sufficient_signers_overlap(&calculator, &next, &vec![true, true, false]),
        rejected(ErrorKind::InsufficientSigners)
    );
    assert_eq!(
        predicates.check_has_sufficient_signers_overlap(&calculator, &next, &vec![true, false, true]),
        Ok(())
    );
    assert_eq!(
        predicates.check_monotonic_height(&next, &trusted()),
        rejected(ErrorKind::NonMonotonicHeight)
    );
    assert_eq!(predicates.check_not_expired(&trusted(), hour(), at(4600)), rejected(ErrorKind::TrustedStateExpired));
}
