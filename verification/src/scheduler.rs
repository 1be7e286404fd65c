//! The scheduler: after each decision of the verifier, it names the height the
//! supervisor turns to next. When a block is rejected because too little of the
//! trusted voting power signed it, the scheduler bisects.

use crate::errors::ErrorKind;
use crate::types::Height;
use vstd::prelude::*;

verus! {

/// What the verifier said last.
#[derive(Clone, Copy, Debug, PartialEq, Eq, Structural)]
pub enum Verdict {
    /// The candidate was accepted and is the trusted block now.
    Verified,
    /// The candidate at height `at` was rejected.
    Invalid { at: Height, kind: ErrorKind },
}

/// What the supervisor does next.
#[derive(Clone, Copy, Debug, PartialEq, Eq, Structural)]
pub enum Step {
    /// The target is trusted: nothing is left to do.
    Done,
    /// Fetch and verify the block at this height.
    Fetch(Height),
    /// Give up: the rejection is final.
    Abort(ErrorKind),
}

/// The height halfway between `trusted` and `candidate`, rounded down.
pub open spec fn midpoint(trusted: Height, candidate: Height) -> int {
    trusted + (candidate - trusted) / 2
}

/// The scheduling policy.
///
/// After an acceptance: done once the trusted height has reached the target,
/// otherwise straight to the target. After a rejection for insufficient
/// overlap: the midpoint between the trusted height and the rejected one,
/// unless that is the trusted height itself, in which case the rejected block
/// was adjacent and the rejection is final. Any other rejection is final.
pub open spec fn next_step(trusted: Height, target: Height, verdict: Verdict) -> Step {
    match verdict {
        Verdict::Verified => if trusted >= target {
            Step::Done
        } else {
            Step::Fetch(target)
        },
        Verdict::Invalid { at, kind } => if kind == ErrorKind::InsufficientOverlap && at > trusted
            + 1 {
            Step::Fetch(midpoint(trusted, at) as Height)
        } else {
            Step::Abort(kind)
        },
    }
}

/// Names the next height to turn to.
pub fn schedule(trusted: Height, target: Height, verdict: Verdict) -> (step: Step)
    ensures
        step == next_step(trusted, target, verdict),
        step matches Step::Fetch(h) ==> trusted < h,
        verdict matches Verdict::Invalid { at, .. } ==> (step matches Step::Fetch(h) ==> h < at),
{
    match verdict {
        Verdict::Verified => {
            if trusted >= target {
                Step::Done
            } else {
                Step::Fetch(target)
            }
        },
        Verdict::Invalid { at, kind } => {
            if kind.is_bisectable() && at > trusted && at - trusted > 1 {
                Step::Fetch(trusted + (at - trusted) / 2)
            } else {
                Step::Abort(kind)
            }
        },
    }
}

/// The number of times the verifier is invoked while bisecting between
/// `trusted` and `candidate`, when it rejects every candidate for insufficient
/// overlap: once for `candidate`, and once more for each midpoint the
/// scheduler names, up to the adjacent block.
pub open spec fn bisection_rounds(trusted: Height, candidate: Height) -> nat
    decreases candidate - trusted,
{
    match next_step(
        trusted,
        candidate,
        Verdict::Invalid { at: candidate, kind: ErrorKind::InsufficientOverlap },
    ) {
        Step::Fetch(middle) => 1 + bisection_rounds(trusted, middle),
        _ => 1,
    }
}

/// Two to the power of `n`.
pub open spec fn power_of_two(n: nat) -> nat
    decreases n,
{
    if n == 0 {
        1
    } else {
        2 * power_of_two((n - 1) as nat)
    }
}

/// The logarithm of `d` to base two, rounded up; zero for `d` below two.
pub open spec fn ceil_log2(d: nat) -> nat
    decreases d,
{
    if d <= 1 {
        0
    } else {
        1 + ceil_log2((d + 1) / 2)
    }
}

/// `ceil_log2(d)` is the least exponent `n` with `d <= 2^n`.
pub proof fn lemma_ceil_log2_is_least(d: nat)
    requires
        d >= 1,
    ensures
        d <= power_of_two(ceil_log2(d)),
        d > 1 ==> power_of_two((ceil_log2(d) - 1) as nat) < d,
    decreases d,
{
    if d > 1 {
        let half = (d + 1) / 2;
        lemma_ceil_log2_is_least(half);
        if half > 1 {
            assert(power_of_two(ceil_log2(half)) == 2 * power_of_two(
                (ceil_log2(half) - 1) as nat,
            ));
        }
    }
}

/// `ceil_log2` never decreases.
pub proof fn lemma_ceil_log2_monotonic(a: nat, b: nat)
    requires
        a <= b,
    ensures
        ceil_log2(a) <= ceil_log2(b),
    decreases b,
{
    if a > 1 {
        lemma_ceil_log2_monotonic((a + 1) / 2, (b + 1) / 2);
    }
}

/// Bisection between a trusted height and a target above it invokes the
/// verifier at most `ceil_log2(target - trusted) + 1` times.
pub proof fn lemma_bisection_terminates(trusted: Height, target: Height)
    requires
        trusted < target,
    ensures
        bisection_rounds(trusted, target) <= ceil_log2((target - trusted) as nat) + 1,
    decreases target - trusted,
{
    if target > trusted + 1 {
        let middle = midpoint(trusted, target) as Height;
        let d = (target - trusted) as nat;
        assert(middle - trusted == d / 2);
        lemma_bisection_terminates(trusted, middle);
        lemma_ceil_log2_monotonic(d / 2, (d + 1) / 2);
    }
}


} // verus!
