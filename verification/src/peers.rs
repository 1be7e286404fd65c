//! The peers of a light client: the primary it follows and the witnesses it
//! holds the primary against.

use crate::types::PeerId;
use vstd::prelude::*;

verus! {

/// One primary and any number of witnesses.
#[derive(Debug, PartialEq, Eq)]
pub struct Peers {
    pub primary: PeerId,
    pub witnesses: Vec<PeerId>,
}

/// No peer occurs twice in `peers`.
pub open spec fn distinct(peers: Seq<PeerId>) -> bool {
    forall|i: int, j: int| 0 <= i < j < peers.len() ==> #[trigger] peers[i] != #[trigger] peers[j]
}

/// Finds `peer` in `peers`.
pub fn position_of(peers: &Vec<PeerId>, peer: &PeerId) -> (r: Option<usize>)
    ensures
        match r {
            Some(i) => i < peers@.len() && peers@[i as int] == *peer,
            None => !peers@.contains(*peer),
        },
{
    let mut i: usize = 0;
    while i < peers.len()
        invariant
            i <= peers@.len(),
            forall|k: int| 0 <= k < i ==> peers@[k] != *peer,
        decreases peers@.len() - i,
    {
        if peers[i].same(peer) {
            return Some(i);
        }
        i = i + 1;
    }
    None
}

/// Decides [`distinct`].
pub fn all_distinct(peers: &Vec<PeerId>) -> (r: bool)
    ensures
        r == distinct(peers@),
{
    let mut j: usize = 0;
    while j < peers.len()
        invariant
            j <= peers@.len(),
            forall|a: int, b: int| 0 <= a < b < j ==> #[trigger] peers@[a] != #[trigger] peers@[b],
        decreases peers@.len() - j,
    {
        let mut i: usize = 0;
        while i < j
            invariant
                i <= j,
                j < peers@.len(),
                forall|a: int| 0 <= a < i ==> #[trigger] peers@[a] != peers@[j as int],
            decreases j - i,
        {
            if peers[i].same(&peers[j]) {
                return false;
            }
            i = i + 1;
        }
        j = j + 1;
    }
    true
}

/// The peers of `after` are drawn from those of `before`: witnesses only
/// leave, and the primary is the one that was or one that was a witness.
pub open spec fn drawn_from(before: Peers, after: Peers) -> bool {
    &&& after.primary == before.primary || before.witnesses@.contains(after.primary)
    &&& forall|p: PeerId| #[trigger]
        after.witnesses@.contains(p) ==> before.witnesses@.contains(p)
}

/// Peers drawn from peers that were drawn from others are drawn from those.
pub proof fn lemma_drawn_transitive(first: Peers, second: Peers, third: Peers)
    requires
        drawn_from(first, second),
        drawn_from(second, third),
    ensures
        drawn_from(first, third),
{
    assert forall|p: PeerId| #[trigger] third.witnesses@.contains(p) implies first.witnesses@.contains(
        p,
    ) by {
        assert(second.witnesses@.contains(p));
    }
}

/// Among the peers `before`, `peer` was the primary, or a witness ahead of
/// the one that is the primary now: it has been primary and was replaced.
pub open spec fn passed_over(before: Peers, primary: PeerId, peer: PeerId) -> bool {
    &&& primary != before.primary
    &&& peer == before.primary || exists|i: int, j: int|
        0 <= i < j < before.witnesses@.len() && #[trigger] before.witnesses@[i] == peer
            && #[trigger] before.witnesses@[j] == primary
}

/// After `k` replacements, `peer` is one of the primaries that were replaced:
/// the first primary, or one of the first `k - 1` witnesses.
pub open spec fn passed_to(before: Peers, k: int, peer: PeerId) -> bool {
    k > 0 && (peer == before.primary || exists|i: int|
        0 <= i < k - 1 && #[trigger] before.witnesses@[i] == peer)
}

/// Whether the peers are what `before` has become after `k` replacements of
/// the primary.
pub open spec fn replaced(before: Peers, k: int, now: Peers) -> bool {
    &&& 0 <= k <= before.witnesses@.len()
    &&& now.witnesses@ == before.witnesses@.skip(k)
    &&& now.primary == if k == 0 {
        before.primary
    } else {
        before.witnesses@[k - 1]
    }
}

/// The peers that were passed over are the primaries that were replaced, and
/// none of them is a peer any more.
pub proof fn lemma_passed(before: Peers, k: int, now: Peers, peer: PeerId)
    requires
        before.wf(),
        replaced(before, k, now),
    ensures
        passed_over(before, now.primary, peer) ==> passed_to(before, k, peer),
        passed_to(before, k, peer) ==> peer != now.primary && !now.witnesses@.contains(peer),
{
    let w = before.witnesses@;
    if k > 0 {
        assert(w.contains(w[k - 1]));
    }
    if passed_over(before, now.primary, peer) && peer != before.primary {
        let (i, j) = choose|i: int, j: int|
            0 <= i < j < w.len() && #[trigger] w[i] == peer && #[trigger] w[j] == now.primary;
        if j < k - 1 {
            assert(w[j] != w[k - 1]);
        }
        if j > k - 1 {
            assert(w[k - 1] != w[j]);
        }
    }
    if passed_to(before, k, peer) {
        if peer == before.primary {
            if now.witnesses@.contains(peer) {
                let a = choose|a: int| 0 <= a < now.witnesses@.len() && now.witnesses@[a] == peer;
                assert(w[a + k] == peer);
                assert(w.contains(peer));
            }
        } else {
            let i = choose|i: int| 0 <= i < k - 1 && #[trigger] w[i] == peer;
            assert(w[i] != w[k - 1]);
            assert(w.contains(w[i]));
            if now.witnesses@.contains(peer) {
                let a = choose|a: int| 0 <= a < now.witnesses@.len() && now.witnesses@[a] == peer;
                assert(w[a + k] == peer);
                assert(w[i] != w[a + k]);
            }
        }
    }
}

/// A peer that was passed over on the way to the primary of now was passed
/// over before the peers were `mid`, or on the way from there.
pub proof fn lemma_passed_in_two(before: Peers, k: int, mid: Peers, primary: PeerId, peer: PeerId)
    requires
        before.wf(),
        replaced(before, k, mid),
        primary == mid.primary || mid.witnesses@.contains(primary),
        passed_over(before, primary, peer),
    ensures
        passed_to(before, k, peer) || passed_over(mid, primary, peer),
{
    let w = before.witnesses@;
    if primary == mid.primary {
        lemma_passed(before, k, mid, peer);
    } else {
        let a = choose|a: int| 0 <= a < mid.witnesses@.len() && mid.witnesses@[a] == primary;
        assert(w[a + k] == primary);
        assert(w.contains(primary));
        if k > 0 {
            assert(w[k - 1] != w[a + k]);
        }
        if peer != before.primary {
            let (i, j) = choose|i: int, j: int|
                0 <= i < j < w.len() && #[trigger] w[i] == peer && #[trigger] w[j] == primary;
            if j < a + k {
                assert(w[j] != w[a + k]);
            }
            if j > a + k {
                assert(w[a + k] != w[j]);
            }
            if i >= k {
                assert(mid.witnesses@[i - k] == peer);
                assert(mid.witnesses@[j - k] == primary);
            } else if i == k - 1 {
                assert(mid.primary == peer);
            }
        }
    }
}

/// One more replacement passes over the primary that was.
pub proof fn lemma_replaced_once(before: Peers, k: int, now: Peers, next: Peers, peer: PeerId)
    requires
        before.wf(),
        replaced(before, k, now),
        now.witnesses@.len() > 0,
        next.primary == now.witnesses@[0],
        next.witnesses@ == now.witnesses@.remove(0),
    ensures
        replaced(before, k + 1, next),
        passed_to(before, k + 1, peer) <==> passed_to(before, k, peer) || peer == now.primary,
{
    let w = before.witnesses@;
    assert(now.witnesses@[0] == w[k]);
    assert(next.witnesses@ =~= w.skip(k + 1));
    if passed_to(before, k + 1, peer) && peer != before.primary {
        let i = choose|i: int| 0 <= i < k && #[trigger] w[i] == peer;
        if i < k - 1 {
            assert(passed_to(before, k, peer));
        }
    }
    if passed_to(before, k, peer) && peer != before.primary {
        let i = choose|i: int| 0 <= i < k - 1 && #[trigger] w[i] == peer;
        assert(w[i] == peer);
    }
    if peer == now.primary && k > 0 {
        assert(w[k - 1] == peer);
    }
}

impl Peers {
    /// The primary is no witness, and no witness is listed twice.
    pub open spec fn wf(&self) -> bool {
        !self.witnesses@.contains(self.primary) && distinct(self.witnesses@)
    }

    /// Decides [`Self::wf`].
    pub fn is_wf(&self) -> (r: bool)
        ensures
            r == self.wf(),
    {
        position_of(&self.witnesses, &self.primary).is_none() && all_distinct(&self.witnesses)
    }

    /// A peer set, if the primary is no witness and no witness is listed twice.
    pub fn new(primary: PeerId, witnesses: Vec<PeerId>) -> (r: Option<Peers>)
        ensures
            match r {
                Some(peers) => peers.wf() && peers.primary == primary && peers.witnesses
                    == witnesses,
                None => !(Peers { primary, witnesses }).wf(),
            },
    {
        let peers = Peers { primary, witnesses };
        if peers.is_wf() {
            Some(peers)
        } else {
            None
        }
    }

    /// Makes the first witness the primary and drops the primary that was.
    /// Returns the dropped primary, or `None`, with nothing changed, when there
    /// is no witness to take its place.
    pub fn replace_primary(&mut self) -> (r: Option<PeerId>)
        requires
            old(self).wf(),
        ensures
            final(self).wf(),
            drawn_from(*old(self), *final(self)),
            match r {
                Some(dropped) => {
                    &&& old(self).witnesses@.len() > 0
                    &&& dropped == old(self).primary
                    &&& final(self).primary == old(self).witnesses@[0]
                    &&& final(self).witnesses@ == old(self).witnesses@.remove(0)
                },
                None => old(self).witnesses@.len() == 0 && *final(self) == *old(self),
            },
    {
        if self.witnesses.len() == 0 {
            return None;
        }
        let ghost before = self.witnesses@;
        let dropped = self.primary;
        let next = self.witnesses.remove(0);
        self.primary = next;
        proof {
            let after = self.witnesses@;
            assert forall|k: int| 0 <= k < after.len() implies after[k] != next by {
                assert(after[k] == before[k + 1]);
            }
            assert forall|i: int, j: int| 0 <= i < j < after.len() implies #[trigger] after[i]
                != #[trigger] after[j] by {
                assert(after[i] == before[i + 1]);
                assert(after[j] == before[j + 1]);
            }
            assert(before[0] == next);
            assert forall|p: PeerId| #[trigger] after.contains(p) implies before.contains(p) by {
                let k = choose|k: int| 0 <= k < after.len() && after[k] == p;
                assert(before[k + 1] == p);
            }
        }
        Some(dropped)
    }

    /// Drops `peer` from the witnesses; tells whether it was one.
    pub fn remove_witness(&mut self, peer: &PeerId) -> (done: bool)
        requires
            old(self).wf(),
        ensures
            final(self).wf(),
            final(self).primary == old(self).primary,
            drawn_from(*old(self), *final(self)),
            done == old(self).witnesses@.contains(*peer),
            done ==> exists|i: int|
                0 <= i < old(self).witnesses@.len() && old(self).witnesses@[i] == *peer
                    && final(self).witnesses@ == #[trigger] old(self).witnesses@.remove(i),
            !done ==> final(self).witnesses@ == old(self).witnesses@,
            !final(self).witnesses@.contains(*peer),
            forall|other: PeerId|
                other != *peer ==> (final(self).witnesses@.contains(other) <==> old(
                    self,
                ).witnesses@.contains(other)),
            final(self).witnesses@.len() == old(self).witnesses@.len() - if done {
                1int
            } else {
                0int
            },
    {
        let ghost before = self.witnesses@;
        match position_of(&self.witnesses, peer) {
            Some(i) => {
                self.witnesses.remove(i);
                proof {
                    let after = self.witnesses@;
                    assert(before[i as int] == *peer);
                    assert(after == before.remove(i as int));
                    assert forall|k: int| 0 <= k < after.len() implies after[k] == before[if k
                        < i {
                        k
                    } else {
                        k + 1
                    }] by {}
                    assert forall|a: int, b: int| 0 <= a < b < after.len() implies #[trigger] after[a]
                        != #[trigger] after[b] by {
                        let x = if a < i { a } else { a + 1 };
                        let y = if b < i { b } else { b + 1 };
                        assert(before[x] != before[y]);
                    }
                    assert forall|k: int| 0 <= k < after.len() implies after[k] != *peer
                        && after[k] != self.primary by {
                        let x = if k < i { k } else { k + 1 };
                        assert(before[x] != before[i as int]);
                        assert(before.contains(before[x]));
                    }
                    assert forall|other: PeerId| other != *peer implies (after.contains(other)
                        <==> before.contains(other)) by {
                        if before.contains(other) {
                            let x = choose|x: int| 0 <= x < before.len() && before[x] == other;
                            let k = if x < i { x } else { x - 1 };
                            assert(after[k] == other);
                        }
                        if after.contains(other) {
                            let k = choose|k: int| 0 <= k < after.len() && after[k] == other;
                            let x = if k < i { k } else { k + 1 };
                            assert(before[x] == other);
                        }
                    }
                }
                true
            },
            None => false,
        }
    }
}

} // verus!
