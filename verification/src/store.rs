//! The light store: at most one light block per height, each with the status
//! the client has given it. The blocks are kept in memory, in a map by height;
//! beside the map the heights are kept in ascending order, for the questions
//! that go by order.

use crate::types::{Height, LightBlock, LightBlockView, PeerId, VerificationStatus};
use std::collections::HashMap;
use vstd::prelude::*;

verus! {

/// A light block together with its verification status.
#[derive(Debug, PartialEq, Eq)]
pub struct StoreEntry {
    pub block: LightBlock,
    pub status: VerificationStatus,
}

/// The model of a store: what it holds at each height.
pub type StoreMap = Map<Height, (LightBlockView, VerificationStatus)>;

impl View for StoreEntry {
    type V = (LightBlockView, VerificationStatus);

    open spec fn view(&self) -> (LightBlockView, VerificationStatus) {
        (self.block@, self.status)
    }
}

/// The heights are in strictly ascending order.
pub open spec fn ascending(heights: Seq<Height>) -> bool {
    forall|i: int, j: int|
        0 <= i < j < heights.len() ==> (#[trigger] heights[i]) < (#[trigger] heights[j])
}

/// Putting a height where it belongs keeps the order and adds that height.
proof fn lemma_inserted(heights: Seq<Height>, p: int, height: Height)
    requires
        ascending(heights),
        0 <= p <= heights.len(),
        forall|i: int| 0 <= i < p ==> (#[trigger] heights[i]) < height,
        forall|i: int| p <= i < heights.len() ==> (#[trigger] heights[i]) > height,
    ensures
        ascending(heights.insert(p, height)),
        forall|h: Height| #[trigger]
            heights.insert(p, height).contains(h) <==> h == height || heights.contains(h),
{
    let after = heights.insert(p, height);
    assert forall|i: int, j: int| 0 <= i < j < after.len() implies (#[trigger] after[i]) < (
    #[trigger] after[j]) by {
        if i < p && j > p {
            assert(heights[i] < height);
            assert(heights[j - 1] > height);
        } else if i < p && j < p {
            assert(heights[i] < heights[j]);
        } else if i > p {
            assert(heights[i - 1] < heights[j - 1]);
        } else if i == p {
            assert(heights[j - 1] > height);
        } else {
            assert(heights[i] < height);
        }
    }
    assert forall|h: Height| #[trigger] after.contains(h) <==> h == height || heights.contains(
        h,
    ) by {
        if after.contains(h) {
            let k = choose|k: int| 0 <= k < after.len() && after[k] == h;
            if k < p {
                assert(heights[k] == h);
            } else if k > p {
                assert(heights[k - 1] == h);
            }
        }
        if heights.contains(h) {
            let k = choose|k: int| 0 <= k < heights.len() && heights[k] == h;
            if k < p {
                assert(after[k] == h);
            } else {
                assert(after[k + 1] == h);
            }
        }
        if h == height {
            assert(after[p] == h);
        }
    }
}

/// Taking a height out keeps the order and removes that height alone.
proof fn lemma_removed(heights: Seq<Height>, p: int)
    requires
        ascending(heights),
        0 <= p < heights.len(),
    ensures
        ascending(heights.remove(p)),
        forall|h: Height| #[trigger]
            heights.remove(p).contains(h) <==> h != heights[p] && heights.contains(h),
{
    let after = heights.remove(p);
    let gone = heights[p];
    assert forall|i: int, j: int| 0 <= i < j < after.len() implies (#[trigger] after[i]) < (
    #[trigger] after[j]) by {
        let a = if i < p { i } else { i + 1 };
        let b = if j < p { j } else { j + 1 };
        assert(heights[a] < heights[b]);
    }
    assert forall|h: Height| #[trigger] after.contains(h) <==> h != gone && heights.contains(
        h,
    ) by {
        if after.contains(h) {
            let k = choose|k: int| 0 <= k < after.len() && after[k] == h;
            let a = if k < p { k } else { k + 1 };
            assert(heights[a] == h);
            if a < p {
                assert(heights[a] < heights[p]);
            } else {
                assert(heights[p] < heights[a]);
            }
        }
        if h != gone && heights.contains(h) {
            let k = choose|k: int| 0 <= k < heights.len() && heights[k] == h;
            if k < p {
                assert(after[k] == h);
            } else {
                assert(after[k - 1] == h);
            }
        }
    }
}

/// Whether the store takes a block at `height` with `status`: the height is
/// free, or holds an unverified block that is being decided. A seed is only
/// taken while the store holds none.
pub open spec fn may_insert(map: StoreMap, height: Height, status: VerificationStatus) -> bool {
    &&& status == VerificationStatus::Trusted ==> forall|h: Height|
        map.dom().contains(h) ==> (#[trigger] map[h]).1 != VerificationStatus::Trusted
    &&& map.dom().contains(height) ==> may_promote(map, height, status)
}

/// Whether the block at `height` can be given `status`: it is there, is
/// unverified, and `status` decides it.
pub open spec fn may_promote(map: StoreMap, height: Height, status: VerificationStatus) -> bool {
    &&& map.dom().contains(height)
    &&& map[height].1 == VerificationStatus::Unverified
    &&& (status == VerificationStatus::Verified || status == VerificationStatus::Failed)
}

/// Whether `height` holds the highest block whose status is `first` or `second`.
pub open spec fn is_highest(
    map: StoreMap,
    height: Height,
    first: VerificationStatus,
    second: VerificationStatus,
) -> bool {
    &&& map.dom().contains(height)
    &&& (map[height].1 == first || map[height].1 == second)
    &&& forall|h: Height|
        map.dom().contains(h) && ((#[trigger] map[h]).1 == first || map[h].1 == second) ==> h
            <= height
}

/// No block has the status `first` or `second`.
pub open spec fn none_with(map: StoreMap, first: VerificationStatus, second: VerificationStatus) -> bool {
    forall|h: Height|
        map.dom().contains(h) ==> (#[trigger] map[h]).1 != first && map[h].1 != second
}

/// Whether `height` holds the lowest block above `floor` whose status is `status`.
pub open spec fn is_lowest_above(
    map: StoreMap,
    height: Height,
    floor: Height,
    status: VerificationStatus,
) -> bool {
    &&& map.dom().contains(height)
    &&& height > floor
    &&& map[height].1 == status
    &&& forall|h: Height|
        map.dom().contains(h) && h > floor && (#[trigger] map[h]).1 == status ==> height <= h
}

/// What is left of `map` once the undecided blocks that `peer` supplied are
/// dropped.
pub open spec fn without_unverified_from(map: StoreMap, peer: PeerId) -> StoreMap {
    Map::new(
        |h: Height| map.dom().contains(h) && !undecided_from(map[h], peer),
        |h: Height| map[h],
    )
}

/// Whether a block was supplied by `peer` and is still undecided.
pub open spec fn undecided_from(entry: (LightBlockView, VerificationStatus), peer: PeerId) -> bool {
    entry.1 == VerificationStatus::Unverified && entry.0.provider == peer
}

/// Light blocks by height, each with its status.
#[derive(Debug, PartialEq, Eq)]
pub struct Store {
    blocks: HashMap<Height, StoreEntry>,
    heights: Vec<Height>,
}

impl View for Store {
    type V = StoreMap;

    closed spec fn view(&self) -> StoreMap {
        Map::new(|h: Height| self.blocks@.contains_key(h), |h: Height| self.blocks@[h]@)
    }
}

impl Store {
    /// The heights kept in order are those of the map, and every block is
    /// filed under its own height.
    pub closed spec fn wf(&self) -> bool {
        &&& ascending(self.heights@)
        &&& forall|h: Height| self.blocks@.contains_key(h) <==> self.heights@.contains(h)
        &&& forall|h: Height|
            self.blocks@.contains_key(h) ==> (#[trigger] self.blocks@[h]).block@.height() == h
    }

    /// Every block is filed under its own height.
    pub proof fn lemma_filed_by_height(&self)
        requires
            self.wf(),
        ensures
            forall|h: Height| self@.dom().contains(h) ==> (#[trigger] self@[h]).0.height() == h,
    {
        assert forall|h: Height| self@.dom().contains(h) implies (#[trigger] self@[h]).0.height()
            == h by {
            assert(self.blocks@[h].block@.height() == h);
        }
    }

    /// An empty store.
    pub fn new() -> (store: Store)
        ensures
            store.wf(),
            store@ == Map::<Height, (LightBlockView, VerificationStatus)>::empty(),
    {
        let store = Store { blocks: HashMap::new(), heights: Vec::new() };
        assert(store@ =~= Map::<Height, (LightBlockView, VerificationStatus)>::empty());
        store
    }

    /// The number of heights below `height`, which is where `height` belongs.
    fn position(&self, height: Height) -> (p: usize)
        requires
            self.wf(),
        ensures
            p <= self.heights@.len(),
            forall|i: int| 0 <= i < p ==> (#[trigger] self.heights@[i]) < height,
            forall|i: int| p <= i < self.heights@.len() ==> (#[trigger] self.heights@[i]) >= height,
            self.blocks@.contains_key(height) <==> p < self.heights@.len() && self.heights@[p as int]
                == height,
    {
        let mut p: usize = 0;
        while p < self.heights.len() && self.heights[p] < height
            invariant
                p <= self.heights@.len(),
                ascending(self.heights@),
                forall|i: int| 0 <= i < p ==> (#[trigger] self.heights@[i]) < height,
            decreases self.heights@.len() - p,
        {
            p = p + 1;
        }
        proof {
            let heights = self.heights@;
            if p < heights.len() {
                assert forall|i: int| p <= i < heights.len() implies (#[trigger] heights[i])
                    >= height by {
                    if p < i {
                        assert(heights[p as int] < heights[i]);
                    }
                }
            }
            if heights.contains(height) {
                let k = choose|k: int| 0 <= k < heights.len() && heights[k] == height;
                if k > p {
                    assert(heights[p as int] < heights[k]);
                }
            }
        }
        p
    }

    /// The entry at `height`.
    pub fn get(&self, height: Height) -> (r: Option<&StoreEntry>)
        requires
            self.wf(),
        ensures
            match r {
                Some(entry) => self@.dom().contains(height) && self@[height] == entry@,
                None => !self@.dom().contains(height),
            },
    {
        self.blocks.get(&height)
    }

    /// The status of the block at the height in place `i` of the order.
    fn status_at(&self, i: usize) -> (r: (Height, VerificationStatus, PeerId))
        requires
            self.wf(),
            i < self.heights@.len(),
        ensures
            r.0 == self.heights@[i as int],
            self@.dom().contains(r.0),
            r.1 == self@[r.0].1,
            r.2 == self@[r.0].0.provider,
    {
        let height = self.heights[i];
        proof {
            assert(self.heights@.contains(height));
        }
        match self.blocks.get(&height) {
            Some(entry) => (height, entry.status, entry.block.provider),
            // Every height of the order is one of the map.
            None => (height, VerificationStatus::Unverified, PeerId { bytes: [0u8; 20] }),
        }
    }

    /// Whether the store holds a seed.
    fn has_seed(&self) -> (r: bool)
        requires
            self.wf(),
        ensures
            r == exists|h: Height|
                self@.dom().contains(h) && (#[trigger] self@[h]).1 == VerificationStatus::Trusted,
    {
        let mut i: usize = 0;
        while i < self.heights.len()
            invariant
                i <= self.heights@.len(),
                self.wf(),
                forall|k: int|
                    0 <= k < i ==> self@[#[trigger] self.heights@[k]].1
                        != VerificationStatus::Trusted,
            decreases self.heights@.len() - i,
        {
            let (height, status, _) = self.status_at(i);
            if status == VerificationStatus::Trusted {
                return true;
            }
            i = i + 1;
        }
        proof {
            assert forall|h: Height| self@.dom().contains(h) implies (#[trigger] self@[h]).1
                != VerificationStatus::Trusted by {
                assert(self.heights@.contains(h));
                let k = choose|k: int| 0 <= k < self.heights@.len() && self.heights@[k] == h;
                assert(self@[self.heights@[k]].1 != VerificationStatus::Trusted);
            }
        }
        false
    }

    /// Files `block` with `status`, if the store takes it; tells whether it did.
    /// An undecided block that is being decided is replaced by `block`.
    pub fn insert(&mut self, block: LightBlock, status: VerificationStatus) -> (done: bool)
        requires
            old(self).wf(),
        ensures
            final(self).wf(),
            done == may_insert(old(self)@, block@.height(), status),
            done ==> final(self)@ == old(self)@.insert(block@.height(), (block@, status)),
            !done ==> final(self)@ == old(self)@,
    {
        let height = block.height();
        if status == VerificationStatus::Trusted && self.has_seed() {
            return false;
        }
        let ghost heights = self.heights@;
        let held: Option<VerificationStatus> = match self.blocks.get(&height) {
            Some(entry) => Some(entry.status),
            None => None,
        };
        match held {
            Some(was) => {
                if was == VerificationStatus::Unverified && (status == VerificationStatus::Verified
                    || status == VerificationStatus::Failed) {
                    self.blocks.insert(height, StoreEntry { block, status });
                    proof {
                        assert(self@ =~= old(self)@.insert(height, (block@, status)));
                    }
                    true
                } else {
                    false
                }
            },
            None => {
                let p = self.position(height);
                self.heights.insert(p, height);
                self.blocks.insert(height, StoreEntry { block, status });
                proof {
                    lemma_inserted(heights, p as int, height);
                    assert(self@ =~= old(self)@.insert(height, (block@, status)));
                }
                true
            },
        }
    }

    /// Gives the undecided block at `height` the status `status`; tells whether
    /// there was such a block and `status` decides it.
    pub fn promote(&mut self, height: Height, status: VerificationStatus) -> (done: bool)
        requires
            old(self).wf(),
        ensures
            final(self).wf(),
            done == may_promote(old(self)@, height, status),
            done ==> final(self)@ == old(self)@.insert(height, (old(self)@[height].0, status)),
            !done ==> final(self)@ == old(self)@,
    {
        let undecided = match self.blocks.get(&height) {
            Some(entry) => entry.status == VerificationStatus::Unverified,
            None => false,
        };
        if undecided && (status == VerificationStatus::Verified || status
            == VerificationStatus::Failed) {
            match self.blocks.remove(&height) {
                Some(entry) => {
                    self.blocks.insert(height, StoreEntry { block: entry.block, status });
                },
                // The block is there: it has just been looked at.
                None => {},
            }
            proof {
                assert(self@ =~= old(self)@.insert(height, (old(self)@[height].0, status)));
            }
            true
        } else {
            false
        }
    }

    /// Drops the block at `height`, unless trust rests on it; tells whether a
    /// block was dropped.
    pub fn discard(&mut self, height: Height) -> (done: bool)
        requires
            old(self).wf(),
        ensures
            final(self).wf(),
            done == (old(self)@.dom().contains(height) && !old(self)@[height].1.trustworthy()),
            done ==> final(self)@ == old(self)@.remove(height),
            !done ==> final(self)@ == old(self)@,
    {
        let ghost heights = self.heights@;
        let disposable = match self.blocks.get(&height) {
            Some(entry) => !entry.status.is_trustworthy(),
            None => false,
        };
        if disposable {
            let p = self.position(height);
            self.heights.remove(p);
            self.blocks.remove(&height);
            proof {
                lemma_removed(heights, p as int);
                assert(self@ =~= old(self)@.remove(height));
            }
            true
        } else {
            false
        }
    }

    /// The highest block whose status is `first` or `second`.
    fn highest_of(&self, first: VerificationStatus, second: VerificationStatus) -> (r: Option<
        &LightBlock,
    >)
        requires
            self.wf(),
        ensures
            match r {
                Some(block) => is_highest(self@, block@.height(), first, second)
                    && self@[block@.height()].0 == block@,
                None => none_with(self@, first, second),
            },
    {
        let mut i: usize = self.heights.len();
        while i > 0
            invariant
                i <= self.heights@.len(),
                self.wf(),
                forall|k: int|
                    i <= k < self.heights@.len() ==> self@[#[trigger] self.heights@[k]].1 != first
                        && self@[self.heights@[k]].1 != second,
            decreases i,
        {
            i = i - 1;
            let height = self.heights[i];
            proof {
                assert(self.heights@.contains(height));
            }
            match self.blocks.get(&height) {
                Some(entry) => {
                    if entry.status == first || entry.status == second {
                        proof {
                            assert forall|h: Height|
                                self@.dom().contains(h) && ((#[trigger] self@[h]).1 == first
                                    || self@[h].1 == second) implies h <= height by {
                                assert(self.heights@.contains(h));
                                let k = choose|k: int|
                                    0 <= k < self.heights@.len() && self.heights@[k] == h;
                                if i < k {
                                    assert(self@[self.heights@[k]].1 != first);
                                }
                                if k < i {
                                    assert(self.heights@[k] < self.heights@[i as int]);
                                }
                            }
                        }
                        return Some(&entry.block);
                    }
                },
                None => {},
            }
        }
        proof {
            assert forall|h: Height| self@.dom().contains(h) implies (#[trigger] self@[h]).1
                != first && self@[h].1 != second by {
                assert(self.heights@.contains(h));
                let k = choose|k: int| 0 <= k < self.heights@.len() && self.heights@[k] == h;
                assert(self@[self.heights@[k]].1 != first);
            }
        }
        None
    }

    /// The highest block with the given status.
    pub fn highest(&self, status: VerificationStatus) -> (r: Option<&LightBlock>)
        requires
            self.wf(),
        ensures
            match r {
                Some(block) => is_highest(self@, block@.height(), status, status)
                    && self@[block@.height()].0 == block@,
                None => none_with(self@, status, status),
            },
    {
        self.highest_of(status, status)
    }

    /// The highest block that is verified or is the seed.
    pub fn highest_trusted_or_verified(&self) -> (r: Option<&LightBlock>)
        requires
            self.wf(),
        ensures
            match r {
                Some(block) => is_highest(
                    self@,
                    block@.height(),
                    VerificationStatus::Trusted,
                    VerificationStatus::Verified,
                ) && self@[block@.height()].0 == block@,
                None => none_with(self@, VerificationStatus::Trusted, VerificationStatus::Verified),
            },
    {
        self.highest_of(VerificationStatus::Trusted, VerificationStatus::Verified)
    }

    /// The same as [`Self::highest_trusted_or_verified`].
    pub fn latest_trusted_or_verified(&self) -> (r: Option<&LightBlock>)
        requires
            self.wf(),
        ensures
            match r {
                Some(block) => is_highest(
                    self@,
                    block@.height(),
                    VerificationStatus::Trusted,
                    VerificationStatus::Verified,
                ) && self@[block@.height()].0 == block@,
                None => none_with(self@, VerificationStatus::Trusted, VerificationStatus::Verified),
            },
    {
        self.highest_trusted_or_verified()
    }

    /// The lowest block above `floor` with the given status.
    pub fn lowest_above(&self, floor: Height, status: VerificationStatus) -> (r: Option<
        &LightBlock,
    >)
        requires
            self.wf(),
        ensures
            match r {
                Some(block) => is_lowest_above(self@, block@.height(), floor, status)
                    && self@[block@.height()].0 == block@,
                None => forall|h: Height|
                    self@.dom().contains(h) && h > floor ==> (#[trigger] self@[h]).1 != status,
            },
    {
        let mut i: usize = 0;
        while i < self.heights.len()
            invariant
                i <= self.heights@.len(),
                self.wf(),
                forall|k: int|
                    0 <= k < i ==> !((#[trigger] self.heights@[k]) > floor
                        && self@[self.heights@[k]].1 == status),
            decreases self.heights@.len() - i,
        {
            let height = self.heights[i];
            proof {
                assert(self.heights@.contains(height));
            }
            if height > floor {
                match self.blocks.get(&height) {
                    Some(entry) => {
                        if entry.status == status {
                            proof {
                                assert forall|h: Height|
                                    self@.dom().contains(h) && h > floor && (#[trigger] self@[h]).1
                                        == status implies height <= h by {
                                    assert(self.heights@.contains(h));
                                    let k = choose|k: int|
                                        0 <= k < self.heights@.len() && self.heights@[k] == h;
                                    if i < k {
                                        assert(self.heights@[i as int] < self.heights@[k]);
                                    }
                                }
                            }
                            return Some(&entry.block);
                        }
                    },
                    None => {},
                }
            }
            i = i + 1;
        }
        proof {
            assert forall|h: Height| self@.dom().contains(h) && h > floor implies (
            #[trigger] self@[h]).1 != status by {
                assert(self.heights@.contains(h));
                let k = choose|k: int| 0 <= k < self.heights@.len() && self.heights@[k] == h;
                assert(!(self.heights@[k] > floor && self@[self.heights@[k]].1 == status));
            }
        }
        None
    }

    /// Drops every undecided block that `peer` supplied.
    pub fn remove_unverified_from(&mut self, peer: &PeerId)
        requires
            old(self).wf(),
        ensures
            final(self).wf(),
            final(self)@ == without_unverified_from(old(self)@, *peer),
    {
        let ghost start = self@;
        let ghost order = self.heights@;
        let mut i: usize = self.heights.len();
        proof {
            assert(order.take(order.len() as int) =~= order);
        }
        while i > 0
            invariant
                i <= self.heights@.len(),
                i <= order.len(),
                self.wf(),
                ascending(order),
                self.heights@.take(i as int) == order.take(i as int),
                forall|h: Height| start.dom().contains(h) <==> order.contains(h),
                forall|h: Height|
                    #![trigger self@.dom().contains(h)]
                    self@.dom().contains(h) <==> start.dom().contains(h) && !(undecided_from(
                        start[h],
                        *peer,
                    ) && !order.take(i as int).contains(h)),
                forall|h: Height|
                    #![trigger self@.dom().contains(h)]
                    self@.dom().contains(h) ==> self@[h] == start[h],
            decreases i,
        {
            i = i - 1;
            let ghost before = *self;
            proof {
                assert(self.heights@[i as int] == self.heights@.take(i + 1)[i as int]);
                assert(order[i as int] == order.take(i + 1)[i as int]);
                assert(self.heights@.take(i as int) =~= self.heights@.take(i + 1).take(i as int));
                assert(order.take(i as int) =~= order.take(i + 1).take(i as int));
            }
            let (height, status, provider) = self.status_at(i);
            let drop = status == VerificationStatus::Unverified && provider.same(peer);
            if drop {
                self.heights.remove(i);
                self.blocks.remove(&height);
                proof {
                    lemma_removed(before.heights@, i as int);
                    assert(self.heights@.take(i as int) =~= before.heights@.take(i as int));
                    assert(self@ =~= before@.remove(height));
                }
            }
            proof {
                assert forall|h: Height|
                    #![trigger self@.dom().contains(h)]
                    self@.dom().contains(h) <==> start.dom().contains(h) && !(undecided_from(
                        start[h],
                        *peer,
                    ) && !order.take(i as int).contains(h)) by {
                    assert(before@.dom().contains(h) <==> start.dom().contains(h) && !(
                    undecided_from(start[h], *peer) && !order.take(i + 1).contains(h)));
                    lemma_prefix_membership(order, i as int, h);
                }
            }
        }
        proof {
            assert(order.take(0) =~= Seq::<Height>::empty());
            assert(self@ =~= without_unverified_from(start, *peer));
        }
    }
}

/// Among ascending heights, the first `i + 1` hold what the first `i` hold and
/// the height in place `i`.
proof fn lemma_prefix_membership(order: Seq<Height>, i: int, h: Height)
    requires
        0 <= i < order.len(),
    ensures
        order.take(i + 1).contains(h) <==> order.take(i).contains(h) || order[i] == h,
{
    let shorter = order.take(i);
    let longer = order.take(i + 1);
    if shorter.contains(h) {
        let k = choose|k: int| 0 <= k < shorter.len() && shorter[k] == h;
        assert(longer[k] == h);
    }
    if order[i] == h {
        assert(longer[i] == h);
    }
    if longer.contains(h) {
        let k = choose|k: int| 0 <= k < longer.len() && longer[k] == h;
        if k < i {
            assert(shorter[k] == h);
        }
    }
}

} // verus!
