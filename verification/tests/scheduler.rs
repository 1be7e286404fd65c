use light_client::errors::ErrorKind;
use light_client::scheduler::{schedule, Step, Verdict};

fn overlap(at: u64) -> Verdict {
    Verdict::Invalid { at, kind: ErrorKind::InsufficientOverlap }
}

#[test]
fn done_when_target_is_trusted() {
    assert_eq!(schedule(110, 110, Verdict::Verified), Step::Done);
    assert_eq!(schedule(120, 110, Verdict::Verified), Step::Done);
}

#[test]
fn straight_to_target_after_acceptance() {
    assert_eq!(schedule(105, 110, Verdict::Verified), Step::Fetch(110));
}

#[test]
fn midpoint_after_insufficient_overlap() {
    assert_eq!(schedule(100, 110, overlap(110)), Step::Fetch(105));
    assert_eq!(schedule(100, 110, overlap(105)), Step::Fetch(102));
    assert_eq!(schedule(100, 110, overlap(102)), Step::Fetch(101));
    assert_eq!(schedule(100, 110, overlap(103)), Step::Fetch(101));
    assert_eq!(schedule(0, u64::MAX, overlap(u64::MAX)), Step::Fetch(u64::MAX / 2));
    assert_eq!(
        schedule(u64::MAX - 2, u64::MAX, overlap(u64::MAX)),
        Step::Fetch(u64::MAX - 1)
    );
}

#[test]
fn adjacent_rejection_is_final() {
    assert_eq!(
        schedule(100, 110, overlap(101)),
        Step::Abort(ErrorKind::InsufficientOverlap)
    );
    assert_eq!(
        schedule(100, 110, overlap(100)),
        Step::Abort(ErrorKind::InsufficientOverlap)
    );
    assert_eq!(
        schedule(100, 110, overlap(90)),
        Step::Abort(ErrorKind::InsufficientOverlap)
    );
}

#[test]
fn other_rejections_are_final() {
    let kinds = [
        ErrorKind::InvalidValidatorSet,
        ErrorKind::HeaderHashMismatch,
        ErrorKind::InvalidCommit,
        ErrorKind::TrustedStateExpired,
        ErrorKind::HeaderOutsideTrustingPeriod,
        ErrorKind::NonMonotonicBftTime,
        ErrorKind::NonMonotonicHeight,
        ErrorKind::InsufficientSigners,
        ErrorKind::UnexpectedHeight,
        ErrorKind::AlreadyFailed,
    ];
    for kind in kinds {
        assert_eq!(schedule(100, 110, Verdict::Invalid { at: 110, kind }), Step::Abort(kind));
        assert!(!kind.is_bisectable());
    }
    assert!(ErrorKind::InsufficientOverlap.is_bisectable());
}

/// The number of rejections for insufficient overlap it takes until the
/// scheduler gives up.
fn rounds(trusted: u64, target: u64) -> u32 {
    let mut count = 1;
    let mut at = target;
    while let Step::Fetch(next) = schedule(trusted, target, overlap(at)) {
        assert!(trusted < next && next < at);
        at = next;
        count += 1;
    }
    count
}

fn ceil_log2(d: u64) -> u32 {
    let mut n = 0;
    while n < 64 && (1u64 << n) < d {
        n += 1;
    }
    n
}

#[test]
fn bisection_is_logarithmic() {
    assert_eq!(rounds(100, 101), 1);
    assert_eq!(rounds(100, 102), 2);
    assert_eq!(rounds(100, 110), 4);
    assert_eq!(rounds(0, 1 << 20), 21);
    for trusted in [0u64, 1, 100, 1 << 40] {
        for distance in 1..300u64 {
            let target = trusted + distance;
            assert!(rounds(trusted, target) <= ceil_log2(distance) + 1);
        }
    }
    assert!(rounds(0, u64::MAX) <= 65);
}
