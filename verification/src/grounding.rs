//! What it means for the blocks of a store to rest on the seed, and how a
//! store may change without losing that.

use crate::capabilities::{HeaderHasher, CommitValidator};
use crate::errors::ErrorKind;
use crate::scheduler::{Step, Verdict, next_step};
use crate::fork_detector::justified;
use crate::options::Options;
use crate::store::{StoreMap, is_highest, undecided_from, without_unverified_from};
use crate::trace::TraceMap;
use crate::types::{
    Height, LightBlock, LightBlockView, PeerId, SignedHeaderView, Time, VerificationStatus,
};
use crate::verification::ProdVerifier;
use vstd::prelude::*;

verus! {

/// At some moment the verifier accepts `candidate` on the strength of
/// `trusted`, under the configured threshold and trusting period.
pub open spec fn extends<H: HeaderHasher, S: CommitValidator>(
    verifier: ProdVerifier<H, S>,
    options: Options,
    trusted: LightBlockView,
    candidate: LightBlockView,
) -> bool {
    exists|now: Time| #[trigger]
        verifier.accepts(
            trusted,
            candidate,
            options.trust_threshold,
            options.trusting_period,
            now,
        )
}

/// The block at `upper` was accepted on the strength of the block at `lower`,
/// which is itself verified or the seed.
pub open spec fn supports<H: HeaderHasher, S: CommitValidator>(
    verifier: ProdVerifier<H, S>,
    options: Options,
    map: StoreMap,
    lower: Height,
    upper: Height,
) -> bool {
    &&& lower < upper
    &&& map.dom().contains(lower)
    &&& map.dom().contains(upper)
    &&& map[lower].1.trustworthy()
    &&& extends(verifier, options, map[lower].0, map[upper].0)
}

/// Every verified block was accepted on the strength of a lower block that is
/// verified or the seed.
#[verifier::opaque]
pub open spec fn grounded<H: HeaderHasher, S: CommitValidator>(
    verifier: ProdVerifier<H, S>,
    options: Options,
    map: StoreMap,
) -> bool {
    forall|h: Height|
        map.dom().contains(h) && (#[trigger] map[h]).1 == VerificationStatus::Verified
            ==> exists|t: Height| #[trigger] supports(verifier, options, map, t, h)
}

/// A path through the store: it starts at the seed, climbs through verified
/// blocks, and each block on it was accepted on the strength of the one before.
pub open spec fn is_chain<H: HeaderHasher, S: CommitValidator>(
    verifier: ProdVerifier<H, S>,
    options: Options,
    map: StoreMap,
    chain: Seq<Height>,
) -> bool {
    &&& chain.len() >= 1
    &&& map.dom().contains(chain[0])
    &&& map[chain[0]].1 == VerificationStatus::Trusted
    &&& forall|i: int|
        0 < i < chain.len() ==> map.dom().contains(#[trigger] chain[i]) && map[chain[i]].1
            == VerificationStatus::Verified
    &&& forall|i: int, j: int|
        0 <= i && j == i + 1 && j < chain.len() ==> (#[trigger] chain[i]) < (#[trigger] chain[j])
            && extends(verifier, options, map[chain[i]].0, map[chain[j]].0)
}

/// Every verified block is reached from the seed by a chain of blocks in the
/// store, each accepted by the verifier on the strength of the one before.
pub proof fn lemma_verified_rests_on_seed<H: HeaderHasher, S: CommitValidator>(
    verifier: ProdVerifier<H, S>,
    options: Options,
    map: StoreMap,
    height: Height,
)
    requires
        grounded(verifier, options, map),
        map.dom().contains(height),
        map[height].1 == VerificationStatus::Verified,
    ensures
        exists|chain: Seq<Height>| #[trigger]
            is_chain(verifier, options, map, chain) && chain.last() == height,
    decreases height,
{
    reveal(grounded);
    let below = choose|t: Height| #[trigger] supports(verifier, options, map, t, height);
    assert(supports(verifier, options, map, below, height));
    if map[below].1 == VerificationStatus::Trusted {
        let chain = seq![below, height];
        assert(is_chain(verifier, options, map, chain)) by {
            assert forall|i: int, j: int| 0 <= i && j == i + 1 && j < chain.len() implies (
            #[trigger] chain[i]) < (#[trigger] chain[j]) && extends(
                verifier,
                options,
                map[chain[i]].0,
                map[chain[j]].0,
            ) by {
                assert(i == 0 && j == 1);
            }
        }
        assert(chain.last() == height);
    } else {
        lemma_verified_rests_on_seed(verifier, options, map, below);
        let lower = choose|chain: Seq<Height>| #[trigger]
            is_chain(verifier, options, map, chain) && chain.last() == below;
        let chain = lower.push(height);
        assert(is_chain(verifier, options, map, chain)) by {
            assert(chain[0] == lower[0]);
            assert forall|i: int| 0 < i < chain.len() implies map.dom().contains(
                #[trigger] chain[i],
            ) && map[chain[i]].1 == VerificationStatus::Verified by {
                if i < lower.len() {
                    assert(chain[i] == lower[i]);
                }
            }
            assert forall|i: int, j: int| 0 <= i && j == i + 1 && j < chain.len() implies (
            #[trigger] chain[i]) < (#[trigger] chain[j]) && extends(
                verifier,
                options,
                map[chain[i]].0,
                map[chain[j]].0,
            ) by {
                if j < lower.len() {
                    assert(chain[i] == lower[i]);
                    assert(chain[j] == lower[j]);
                } else {
                    assert(chain[i] == below);
                    assert(chain[j] == height);
                }
            }
        }
        assert(chain.last() == height);
    }
}

/// The validator set of every verified block hashes to what the block's header
/// commits to.
pub proof fn lemma_verified_validators_match<H: HeaderHasher, S: CommitValidator>(
    verifier: ProdVerifier<H, S>,
    options: Options,
    map: StoreMap,
    height: Height,
)
    requires
        grounded(verifier, options, map),
        map.dom().contains(height),
        map[height].1 == VerificationStatus::Verified,
    ensures
        verifier.header_hasher.validators_digest(map[height].0.validators)
            == map[height].0.signed_header.header.validators_hash,
{
    reveal(grounded);
    let below = choose|t: Height| #[trigger] supports(verifier, options, map, t, height);
    assert(supports(verifier, options, map, below, height));
    let now = choose|now: Time| #[trigger]
        verifier.accepts(
            map[below].0,
            map[height].0,
            options.trust_threshold,
            options.trusting_period,
            now,
        );
    assert(verifier.accepts(
        map[below].0,
        map[height].0,
        options.trust_threshold,
        options.trusting_period,
        now,
    ));
}

/// How a store may change while the client works: what is verified or the
/// seed stays as it is, and no new seed appears.
#[verifier::opaque]
pub open spec fn evolves(before: StoreMap, after: StoreMap) -> bool {
    &&& forall|h: Height|
        before.dom().contains(h) && (#[trigger] before[h]).1.trustworthy() ==> after.dom().contains(
            h,
        ) && after[h] == before[h]
    &&& forall|h: Height|
        after.dom().contains(h) && (#[trigger] after[h]).1 == VerificationStatus::Trusted
            ==> before.dom().contains(h) && before[h] == after[h]
}

/// Changes that leave the trusted part of a store alone can be chained.
pub proof fn lemma_evolves_transitive(first: StoreMap, second: StoreMap, third: StoreMap)
    requires
        evolves(first, second),
        evolves(second, third),
    ensures
        evolves(first, third),
{
    reveal(evolves);
    assert forall|h: Height|
        first.dom().contains(h) && (#[trigger] first[h]).1.trustworthy() implies third.dom().contains(
        h,
    ) && third[h] == first[h] by {
        assert(second[h] == first[h]);
    }
    assert forall|h: Height|
        third.dom().contains(h) && (#[trigger] third[h]).1
            == VerificationStatus::Trusted implies first.dom().contains(h) && first[h]
        == third[h] by {
        assert(second[h] == third[h]);
    }
}

/// A store stays grounded when each block that is verified afterwards either
/// was verified before, or is supported by a block of the store.
pub proof fn lemma_grounded_preserved<H: HeaderHasher, S: CommitValidator>(
    verifier: ProdVerifier<H, S>,
    options: Options,
    before: StoreMap,
    after: StoreMap,
)
    requires
        grounded(verifier, options, before),
        evolves(before, after),
        forall|h: Height|
            after.dom().contains(h) && (#[trigger] after[h]).1 == VerificationStatus::Verified ==> (
            before.dom().contains(h) && before[h] == after[h]) || exists|t: Height| #[trigger]
                supports(verifier, options, after, t, h),
    ensures
        grounded(verifier, options, after),
{
    reveal(grounded);
    reveal(evolves);
    assert forall|h: Height|
        after.dom().contains(h) && (#[trigger] after[h]).1
            == VerificationStatus::Verified implies exists|t: Height| #[trigger]
        supports(verifier, options, after, t, h) by {
        if before.dom().contains(h) && before[h] == after[h] {
            let t = choose|t: Height| #[trigger] supports(verifier, options, before, t, h);
            assert(supports(verifier, options, before, t, h));
            assert(after[t] == before[t]);
            assert(supports(verifier, options, after, t, h));
        }
    }
}

/// Evidence of a fork at `target`: `primary` is the block there, which is
/// verified or the seed, and `witness` is a header of the same height with
/// another hash.
pub open spec fn conflicting<H: HeaderHasher, S: CommitValidator>(
    verifier: ProdVerifier<H, S>,
    map: StoreMap,
    target: Height,
    primary: LightBlockView,
    witness: SignedHeaderView,
) -> bool {
    &&& reached(map, target, primary)
    &&& witness.header.height == target
    &&& verifier.header_hasher.header_digest(witness.header) != verifier.header_hasher.header_digest(
        primary.signed_header.header,
    )
}

/// The height of the latest block that is verified or the seed.
pub open spec fn latest(map: StoreMap) -> Height {
    choose|h: Height|
        is_highest(map, h, VerificationStatus::Trusted, VerificationStatus::Verified)
}

/// The highest block that is verified or the seed is the latest.
pub proof fn lemma_latest(map: StoreMap, height: Height)
    requires
        is_highest(map, height, VerificationStatus::Trusted, VerificationStatus::Verified),
    ensures
        latest(map) == height,
{
    let other = latest(map);
    assert(is_highest(map, other, VerificationStatus::Trusted, VerificationStatus::Verified));
    assert(map[other].1 == VerificationStatus::Trusted || map[other].1
        == VerificationStatus::Verified);
    assert(map[height].1 == VerificationStatus::Trusted || map[height].1
        == VerificationStatus::Verified);
}

/// The block at `target` is verified or the seed, and `block` is that block.
pub open spec fn reached(map: StoreMap, target: Height, block: LightBlockView) -> bool {
    &&& map.dom().contains(target)
    &&& map[target].0 == block
    &&& map[target].1.trustworthy()
    &&& block.height() == target
}

/// A store that does not change evolves.
pub proof fn lemma_evolves_same(map: StoreMap)
    ensures
        evolves(map, map),
{
    reveal(evolves);
}

/// A block that is verified or the seed stays in the store as it is.
pub proof fn lemma_evolves_keeps(before: StoreMap, after: StoreMap, height: Height)
    requires
        evolves(before, after),
        before.dom().contains(height),
        before[height].1.trustworthy(),
    ensures
        after.dom().contains(height),
        after[height] == before[height],
{
    reveal(evolves);
}

/// A seed in the store was there from the start.
pub proof fn lemma_evolves_no_new_seed(before: StoreMap, after: StoreMap, height: Height)
    requires
        evolves(before, after),
        after.dom().contains(height),
        after[height].1 == VerificationStatus::Trusted,
    ensures
        before.dom().contains(height),
        before[height] == after[height],
{
    reveal(evolves);
}


/// A change that leaves what is verified or the seed exactly as it was: no
/// such block goes, changes or comes.
#[verifier::opaque]
pub open spec fn settled(before: StoreMap, after: StoreMap) -> bool {
    &&& forall|h: Height|
        before.dom().contains(h) && (#[trigger] before[h]).1.trustworthy() ==> after.dom().contains(
            h,
        ) && after[h] == before[h]
    &&& forall|h: Height|
        after.dom().contains(h) && (#[trigger] after[h]).1.trustworthy() ==> before.dom().contains(
            h,
        ) && before[h] == after[h]
}

/// A store that does not change is settled.
pub proof fn lemma_settled_same(map: StoreMap)
    ensures
        settled(map, map),
{
    reveal(settled);
}

/// Settled changes can be chained.
pub proof fn lemma_settled_transitive(first: StoreMap, second: StoreMap, third: StoreMap)
    requires
        settled(first, second),
        settled(second, third),
    ensures
        settled(first, third),
{
    reveal(settled);
    assert forall|h: Height|
        first.dom().contains(h) && (#[trigger] first[h]).1.trustworthy() implies third.dom().contains(
        h,
    ) && third[h] == first[h] by {
        assert(second[h] == first[h]);
    }
    assert forall|h: Height|
        third.dom().contains(h) && (#[trigger] third[h]).1.trustworthy() implies first.dom().contains(
        h,
    ) && first[h] == third[h] by {
        assert(second[h] == third[h]);
    }
}

/// A settled change is one of the changes a store may undergo, and leaves it
/// grounded.
pub proof fn lemma_settled_evolves<H: HeaderHasher, S: CommitValidator>(
    verifier: ProdVerifier<H, S>,
    options: Options,
    before: StoreMap,
    after: StoreMap,
)
    requires
        settled(before, after),
    ensures
        evolves(before, after),
        grounded(verifier, options, before) ==> grounded(verifier, options, after),
{
    reveal(settled);
    assert(evolves(before, after)) by {
        reveal(evolves);
    }
    if grounded(verifier, options, before) {
        lemma_grounded_preserved(verifier, options, before, after);
    }
}

/// The path recorded for `target`; empty where none is.
pub open spec fn path_of(trace: TraceMap, target: Height) -> Seq<Height> {
    if trace.dom().contains(target) {
        trace[target]
    } else {
        Seq::empty()
    }
}

/// The height trust was last extended to: the end of the path, or the origin
/// where the path is empty.
pub open spec fn tip(origin: Height, path: Seq<Height>) -> Height {
    if path.len() == 0 {
        origin
    } else {
        path.last()
    }
}

/// The heights of `path` climb from above `origin` to at most `target`.
pub open spec fn climbs(origin: Height, target: Height, path: Seq<Height>) -> bool {
    &&& forall|i: int| 0 <= i < path.len() ==> origin < (#[trigger] path[i]) <= target
    &&& forall|i: int, j: int|
        0 <= i < j < path.len() ==> (#[trigger] path[i]) < (#[trigger] path[j])
}

/// Every height of `path` holds a verified block.
pub open spec fn verified_along(map: StoreMap, path: Seq<Height>) -> bool {
    forall|i: int|
        0 <= i < path.len() ==> map.dom().contains(#[trigger] path[i]) && map[path[i]].1
            == VerificationStatus::Verified
}

/// The block at position `i` of `path` was accepted on the strength of the one
/// before it; the first on the strength of the block at `origin`.
pub open spec fn link<H: HeaderHasher, S: CommitValidator>(
    verifier: ProdVerifier<H, S>,
    options: Options,
    map: StoreMap,
    origin: Height,
    path: Seq<Height>,
    i: int,
) -> bool {
    supports(
        verifier,
        options,
        map,
        if i == 0 {
            origin
        } else {
            path[i - 1]
        },
        path[i],
    )
}

/// Every block of `path` was accepted on the strength of the one before it.
pub open spec fn linked<H: HeaderHasher, S: CommitValidator>(
    verifier: ProdVerifier<H, S>,
    options: Options,
    map: StoreMap,
    origin: Height,
    path: Seq<Height>,
) -> bool {
    forall|i: int| 0 <= i < path.len() ==> #[trigger] link(verifier, options, map, origin, path, i)
}

/// Whatever is verified above `origin` lies on `path`.
pub open spec fn covers(map: StoreMap, origin: Height, path: Seq<Height>) -> bool {
    forall|h: Height|
        map.dom().contains(h) && (#[trigger] map[h]).1.trustworthy() && h > origin
            ==> path.contains(h)
}

/// `path` is the way trust went from `origin` towards `target`: its heights
/// climb from above the origin to at most the target, each holds a verified
/// block that was accepted on the strength of the one before it, the first on
/// the strength of the block at the origin; and no block above the origin is
/// verified that is not on the path.
#[verifier::opaque]
pub open spec fn traced<H: HeaderHasher, S: CommitValidator>(
    verifier: ProdVerifier<H, S>,
    options: Options,
    map: StoreMap,
    origin: Height,
    target: Height,
    path: Seq<Height>,
) -> bool {
    &&& map.dom().contains(origin)
    &&& map[origin].1.trustworthy()
    &&& climbs(origin, target, path)
    &&& verified_along(map, path)
    &&& linked(verifier, options, map, origin, path)
    &&& covers(map, origin, path)
}

/// From the latest block that is verified or the seed, no way has been gone yet.
pub proof fn lemma_traced_start<H: HeaderHasher, S: CommitValidator>(
    verifier: ProdVerifier<H, S>,
    options: Options,
    map: StoreMap,
    origin: Height,
    target: Height,
)
    requires
        is_highest(map, origin, VerificationStatus::Trusted, VerificationStatus::Verified),
    ensures
        traced(verifier, options, map, origin, target, Seq::<Height>::empty()),
{
    reveal(traced);
    assert forall|h: Height|
        map.dom().contains(h) && (#[trigger] map[h]).1.trustworthy() && h
            > origin implies Seq::<Height>::empty().contains(h) by {
        assert(map[h].1 == VerificationStatus::Trusted || map[h].1
            == VerificationStatus::Verified);
    }
}

/// A settled change leaves the links of a path as they are.
proof fn lemma_linked_settled<H: HeaderHasher, S: CommitValidator>(
    verifier: ProdVerifier<H, S>,
    options: Options,
    before: StoreMap,
    after: StoreMap,
    origin: Height,
    path: Seq<Height>,
)
    requires
        linked(verifier, options, before, origin, path),
        verified_along(before, path),
        settled(before, after),
    ensures
        linked(verifier, options, after, origin, path),
{
    reveal(settled);
    assert forall|i: int| 0 <= i < path.len() implies #[trigger] link(
        verifier,
        options,
        after,
        origin,
        path,
        i,
    ) by {
        assert(link(verifier, options, before, origin, path, i));
        let lower = if i == 0 {
            origin
        } else {
            path[i - 1]
        };
        assert(before[path[i]].1.trustworthy());
        assert(after[lower] == before[lower]);
        assert(after[path[i]] == before[path[i]]);
    }
}

/// A settled change leaves the way as it is.
pub proof fn lemma_traced_settled<H: HeaderHasher, S: CommitValidator>(
    verifier: ProdVerifier<H, S>,
    options: Options,
    before: StoreMap,
    after: StoreMap,
    origin: Height,
    target: Height,
    path: Seq<Height>,
)
    requires
        traced(verifier, options, before, origin, target, path),
        settled(before, after),
    ensures
        traced(verifier, options, after, origin, target, path),
{
    reveal(traced);
    lemma_linked_settled(verifier, options, before, after, origin, path);
    assert(verified_along(after, path) && covers(after, origin, path) && after.dom().contains(
        origin,
    ) && after[origin].1.trustworthy()) by {
        reveal(settled);
        assert forall|i: int| 0 <= i < path.len() implies after.dom().contains(
            #[trigger] path[i],
        ) && after[path[i]].1 == VerificationStatus::Verified by {
            assert(before[path[i]].1.trustworthy());
        }
        assert forall|h: Height|
            after.dom().contains(h) && (#[trigger] after[h]).1.trustworthy() && h
                > origin implies path.contains(h) by {
            assert(before[h] == after[h]);
        }
    }
}

/// A height above the tip extends a climbing path.
proof fn lemma_climbs_extend(origin: Height, target: Height, path: Seq<Height>, current: Height)
    requires
        climbs(origin, target, path),
        tip(origin, path) < current <= target,
    ensures
        climbs(origin, target, path.push(current)),
{
    let longer = path.push(current);
    if path.len() > 0 {
        assert(origin < path[path.len() - 1]);
    }
    assert forall|i: int| 0 <= i < longer.len() implies origin < (#[trigger] longer[i])
        <= target by {
        if i < path.len() {
            assert(longer[i] == path[i]);
        }
    }
    assert forall|i: int, j: int| 0 <= i < j < longer.len() implies (#[trigger] longer[i]) < (
    #[trigger] longer[j]) by {
        if j < path.len() {
            assert(path[i] < path[j]);
        } else if i < path.len() - 1 {
            assert(path[i] < path[path.len() - 1]);
        }
    }
}

/// A block verified on the strength of the tip adds a link to the path.
proof fn lemma_linked_extend<H: HeaderHasher, S: CommitValidator>(
    verifier: ProdVerifier<H, S>,
    options: Options,
    before: StoreMap,
    after: StoreMap,
    origin: Height,
    path: Seq<Height>,
    current: Height,
)
    requires
        linked(verifier, options, before, origin, path),
        verified_along(before, path),
        before.dom().contains(origin),
        before[origin].1.trustworthy(),
        before.dom().contains(current),
        before[current].1 == VerificationStatus::Unverified,
        after == before.insert(current, (before[current].0, VerificationStatus::Verified)),
        supports(verifier, options, after, tip(origin, path), current),
    ensures
        linked(verifier, options, after, origin, path.push(current)),
        verified_along(after, path.push(current)),
{
    let longer = path.push(current);
    assert forall|i: int| 0 <= i < longer.len() implies #[trigger] link(
        verifier,
        options,
        after,
        origin,
        longer,
        i,
    ) by {
        if i < path.len() {
            assert(link(verifier, options, before, origin, path, i));
            assert(longer[i] == path[i]);
            assert(before[path[i]].1 == VerificationStatus::Verified);
            if i > 0 {
                assert(longer[i - 1] == path[i - 1]);
                assert(before[path[i - 1]].1 == VerificationStatus::Verified);
            }
        } else {
            if i > 0 {
                assert(longer[i - 1] == path[i - 1]);
            }
        }
    }
    assert forall|i: int| 0 <= i < longer.len() implies after.dom().contains(
        #[trigger] longer[i],
    ) && after[longer[i]].1 == VerificationStatus::Verified by {
        if i < path.len() {
            assert(longer[i] == path[i]);
            assert(before[path[i]].1 == VerificationStatus::Verified);
        }
    }
}

/// A block that becomes verified and joins the path keeps the path complete.
proof fn lemma_covers_extend(
    before: StoreMap,
    after: StoreMap,
    origin: Height,
    path: Seq<Height>,
    current: Height,
)
    requires
        covers(before, origin, path),
        before.dom().contains(current),
        after == before.insert(current, (before[current].0, VerificationStatus::Verified)),
    ensures
        covers(after, origin, path.push(current)),
{
    let longer = path.push(current);
    assert forall|h: Height|
        after.dom().contains(h) && (#[trigger] after[h]).1.trustworthy() && h
            > origin implies longer.contains(h) by {
        if h == current {
            assert(longer[path.len() as int] == current);
        } else {
            assert(before[h] == after[h]);
            assert(path.contains(h));
            let i = choose|i: int| 0 <= i < path.len() && path[i] == h;
            assert(longer[i] == h);
        }
    }
}

/// A block that is verified on the strength of the tip extends the way.
pub proof fn lemma_traced_extend<H: HeaderHasher, S: CommitValidator>(
    verifier: ProdVerifier<H, S>,
    options: Options,
    before: StoreMap,
    after: StoreMap,
    origin: Height,
    target: Height,
    path: Seq<Height>,
    current: Height,
)
    requires
        traced(verifier, options, before, origin, target, path),
        before.dom().contains(current),
        before[current].1 == VerificationStatus::Unverified,
        after == before.insert(current, (before[current].0, VerificationStatus::Verified)),
        supports(verifier, options, after, tip(origin, path), current),
        current <= target,
    ensures
        traced(verifier, options, after, origin, target, path.push(current)),
        tip(origin, path.push(current)) == current,
{
    reveal(traced);
    lemma_climbs_extend(origin, target, path, current);
    lemma_linked_extend(verifier, options, before, after, origin, path, current);
    lemma_covers_extend(before, after, origin, path, current);
}

/// No block that is verified or the seed lies above the tip, and the tip is
/// such a block at or below the target.
pub proof fn lemma_traced_tip<H: HeaderHasher, S: CommitValidator>(
    verifier: ProdVerifier<H, S>,
    options: Options,
    map: StoreMap,
    origin: Height,
    target: Height,
    path: Seq<Height>,
)
    requires
        traced(verifier, options, map, origin, target, path),
        origin <= target,
    ensures
        map.dom().contains(origin),
        map[origin].1.trustworthy(),
        is_highest(
            map,
            tip(origin, path),
            VerificationStatus::Trusted,
            VerificationStatus::Verified,
        ),
        origin <= tip(origin, path) <= target,
        path.len() > 0 ==> map[tip(origin, path)].1 == VerificationStatus::Verified,
{
    reveal(traced);
    let end = tip(origin, path);
    if path.len() > 0 {
        assert(origin < path[path.len() - 1]);
        assert(map[path[path.len() - 1]].1 == VerificationStatus::Verified);
    }
    assert forall|h: Height|
        map.dom().contains(h) && ((#[trigger] map[h]).1 == VerificationStatus::Trusted || map[h].1
            == VerificationStatus::Verified) implies h <= end by {
        if h > origin {
            assert(map[h].1.trustworthy());
            assert(path.contains(h));
            let i = choose|i: int| 0 <= i < path.len() && path[i] == h;
            if i < path.len() - 1 {
                assert(path[i] < path[path.len() - 1]);
            }
        }
    }
}

/// The verifier turns the block at `upper` down for `kind`, on the strength of
/// the block at `lower` and at the time `now`, and on the way to `target` the
/// scheduler takes that for final.
pub open spec fn refused<H: HeaderHasher, S: CommitValidator>(
    verifier: ProdVerifier<H, S>,
    options: Options,
    map: StoreMap,
    lower: Height,
    upper: Height,
    target: Height,
    now: Time,
    kind: ErrorKind,
) -> bool {
    &&& map.dom().contains(lower)
    &&& map[lower].1.trustworthy()
    &&& map.dom().contains(upper)
    &&& verifier.verdict_on(
        map[lower].0,
        map[upper].0,
        options.trust_threshold,
        options.trusting_period,
        now,
    ) == Err::<(), ErrorKind>(kind)
    &&& next_step(lower, target, Verdict::Invalid { at: upper, kind }) == Step::Abort(kind)
}

/// A conflicting header is backed: the witness has blocks that let trust
/// extend from the seed along the path and that end in this header.
pub open spec fn fork_backed<H: HeaderHasher, S: CommitValidator>(
    verifier: ProdVerifier<H, S>,
    options: Options,
    seed: LightBlockView,
    path: Seq<Height>,
    witness: SignedHeaderView,
) -> bool {
    exists|blocks: Seq<LightBlock>, now: Time|
        blocks.len() > 0 && blocks.last()@.signed_header == witness && #[trigger] justified(
            verifier,
            seed,
            blocks,
            path,
            options.trust_threshold,
            options.trusting_period,
            now,
        )
}

/// The store holds no undecided block that `peer` supplied.
pub open spec fn cleared(map: StoreMap, peer: PeerId) -> bool {
    forall|h: Height| map.dom().contains(h) ==> !undecided_from(#[trigger] map[h], peer)
}

/// Whatever undecided block the store holds afterwards that is not
/// `primary`'s, it held before: undecided blocks are filed for the primary
/// alone.
#[verifier::opaque]
pub open spec fn files_for(before: StoreMap, after: StoreMap, primary: PeerId) -> bool {
    forall|h: Height|
        after.dom().contains(h) && (#[trigger] after[h]).1 == VerificationStatus::Unverified
            && after[h].0.provider != primary ==> before.dom().contains(h) && before[h]
            == after[h]
}

/// A store that does not change files nothing.
pub proof fn lemma_files_same(map: StoreMap, primary: PeerId)
    ensures
        files_for(map, map, primary),
{
    reveal(files_for);
}

/// Filing for one primary can be chained.
pub proof fn lemma_files_transitive(
    first: StoreMap,
    second: StoreMap,
    third: StoreMap,
    primary: PeerId,
)
    requires
        files_for(first, second, primary),
        files_for(second, third, primary),
    ensures
        files_for(first, third, primary),
{
    reveal(files_for);
    assert forall|h: Height|
        third.dom().contains(h) && (#[trigger] third[h]).1 == VerificationStatus::Unverified
            && third[h].0.provider != primary implies first.dom().contains(h) && first[h]
        == third[h] by {
        assert(second[h] == third[h]);
    }
}

/// While blocks are filed for the primary, a store that holds no undecided
/// block of another peer goes on holding none.
pub proof fn lemma_files_keep_clear(
    before: StoreMap,
    after: StoreMap,
    primary: PeerId,
    peer: PeerId,
)
    requires
        files_for(before, after, primary),
        cleared(before, peer),
        peer != primary,
    ensures
        cleared(after, peer),
{
    reveal(files_for);
    assert forall|h: Height| after.dom().contains(h) implies !undecided_from(
        #[trigger] after[h],
        peer,
    ) by {
        if undecided_from(after[h], peer) {
            assert(before[h] == after[h]);
        }
    }
}

/// Dropping the undecided blocks of one peer leaves none of them, and no
/// undecided block of another peer comes of it.
pub proof fn lemma_without_clears(map: StoreMap, dropped: PeerId, peer: PeerId)
    ensures
        cleared(without_unverified_from(map, dropped), dropped),
        cleared(map, peer) ==> cleared(without_unverified_from(map, dropped), peer),
{
    let after = without_unverified_from(map, dropped);
    assert forall|h: Height| after.dom().contains(h) implies !undecided_from(
        #[trigger] after[h],
        dropped,
    ) by {}
    if cleared(map, peer) {
        assert forall|h: Height| after.dom().contains(h) implies !undecided_from(
            #[trigger] after[h],
            peer,
        ) by {
            assert(after[h] == map[h]);
        }
    }
}

} // verus!
