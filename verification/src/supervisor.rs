//! The supervisor: it drives fetching, verification, bisection and fork
//! detection, and keeps the store, the peers and the trace.

use crate::capabilities::{
    Clock, CommitValidator, HeaderHasher, Io, Request, begins_with, lemma_begins_push,
    lemma_begins_transitive,
};
use crate::errors::{Error, ErrorKind};
use crate::fork_detector::{
    Finding, FindingView, backed, examine_witness, first_fork, justified, lemma_first_fork,
    settle,
};
use crate::grounding::{
    cleared, conflicting, evolves, files_for, fork_backed, grounded, is_chain, latest,
    lemma_evolves_keeps, lemma_files_keep_clear, lemma_files_same, lemma_files_transitive,
    lemma_without_clears,
    lemma_evolves_no_new_seed, lemma_evolves_same, lemma_evolves_transitive,
    lemma_grounded_preserved, lemma_latest, lemma_settled_evolves, lemma_settled_same,
    lemma_settled_transitive, lemma_traced_extend, lemma_traced_settled, lemma_traced_start,
    lemma_traced_tip, path_of, reached, refused, settled, supports, tip, traced,
};
use crate::options::Options;
use crate::peers::{
    Peers, drawn_from, lemma_drawn_transitive, lemma_passed, lemma_passed_in_two,
    lemma_replaced_once, passed_over, passed_to, replaced,
};
use crate::predicates::{ProdPredicates, check_not_expired, not_expired};
use crate::scheduler::{Step, Verdict, next_step, schedule};
use crate::store::{Store, StoreMap, is_highest, none_with, without_unverified_from};
use crate::trace::Trace;
use crate::types::{
    Duration, Height, LightBlock, LightBlockView, PeerId, Time, VerificationStatus,
    copy_vec,
};
use crate::verification::{ProdVerifier, Verifier};
use crate::voting_power::ProdVotingPowerCalculator;
use vstd::prelude::*;

verus! {

/// A light client: a store of light blocks, the peers they come from, and the
/// services that verify them.
pub struct LightClient<H: HeaderHasher, S: CommitValidator, C: Clock, I: Io> {
    pub peers: Peers,
    pub store: Store,
    pub trace: Trace,
    pub options: Options,
    pub verifier: ProdVerifier<H, S>,
    pub clock: C,
    pub io: I,
}

/// Why a run with the current primary ended before the target was reached.
enum Halt {
    /// The call fails with this error.
    Failed(Error),
    /// The primary did not answer, or answered with a block that is not what
    /// it claims to be.
    PrimaryFailed,
}

/// What the store holds at a height the client turns to.
enum Held {
    /// Nothing.
    Nothing,
    /// A block of another peer that is undecided or was rejected.
    Foreign,
    /// A block that is verified or the seed.
    Trustworthy,
    /// An undecided block of the primary.
    Undecided,
    /// A block of the primary that was rejected.
    Rejected,
}

/// The store holds, at `height`, an undecided block that `peer` supplied.
pub open spec fn undecided_at(map: StoreMap, height: Height, peer: PeerId) -> bool {
    &&& map.dom().contains(height)
    &&& map[height].1 == VerificationStatus::Unverified
    &&& map[height].0.provider == peer
}

/// The store holds, at `height`, a block that `peer` supplied and that was
/// rejected for good.
pub open spec fn rejected_at(map: StoreMap, height: Height, peer: PeerId) -> bool {
    &&& map.dom().contains(height)
    &&& map[height].1 == VerificationStatus::Failed
    &&& map[height].0.provider == peer
}

impl<H: HeaderHasher, S: CommitValidator, C: Clock, I: Io> LightClient<H, S, C, I> {
    /// The store and the peers are well formed, and every verified block was
    /// accepted on the strength of a lower block that is verified or the seed.
    pub open spec fn inv(&self) -> bool {
        &&& self.store.wf()
        &&& self.peers.wf()
        &&& self.options.trust_threshold.valid()
        &&& grounded(self.verifier, self.options, self.store@)
    }

    /// Two states of a client with the same configuration and services.
    pub open spec fn same_setup(&self, other: &Self) -> bool {
        self.options == other.options && self.verifier == other.verifier
    }

    /// The path recorded for `target` is the way trust went from `origin`.
    pub open spec fn on_the_way(&self, origin: Height, target: Height) -> bool {
        traced(
            self.verifier,
            self.options,
            self.store@,
            origin,
            target,
            path_of(self.trace@, target),
        )
    }

    /// Trust went from `origin` all the way to `target`, along the path
    /// recorded for `target`; the block at `target` is the one the primary
    /// supplied.
    pub open spec fn arrived(&self, origin: Height, target: Height) -> bool {
        &&& self.on_the_way(origin, target)
        &&& path_of(self.trace@, target).len() > 0
        &&& path_of(self.trace@, target).last() == target
        &&& self.store@.dom().contains(target)
        &&& self.store@[target].0.provider == self.peers.primary
    }

    /// Every verified block is reached from the seed by a chain of blocks in
    /// the store, each accepted by the verifier on the strength of the one
    /// before.
    pub proof fn lemma_verified_rests_on_seed(&self, height: Height)
        requires
            self.inv(),
            self.store@.dom().contains(height),
            self.store@[height].1 == VerificationStatus::Verified,
        ensures
            exists|chain: Seq<Height>| #[trigger]
                is_chain(self.verifier, self.options, self.store@, chain) && chain.last()
                    == height,
    {
        crate::grounding::lemma_verified_rests_on_seed(
            self.verifier,
            self.options,
            self.store@,
            height,
        );
    }

    /// The validator set of every verified block hashes to what the block's
    /// header commits to.
    pub proof fn lemma_verified_validators_match(&self, height: Height)
        requires
            self.inv(),
            self.store@.dom().contains(height),
            self.store@[height].1 == VerificationStatus::Verified,
        ensures
            self.verifier.header_hasher.validators_digest(self.store@[height].0.validators)
                == self.store@[height].0.signed_header.header.validators_hash,
    {
        crate::grounding::lemma_verified_validators_match(
            self.verifier,
            self.options,
            self.store@,
            height,
        );
    }

    /// A client that starts from `seed`, or from nothing.
    pub fn new(
        peers: Peers,
        seed: Option<LightBlock>,
        options: Options,
        header_hasher: H,
        commit_validator: S,
        clock: C,
        io: I,
    ) -> (client: Self)
        requires
            peers.wf(),
            options.trust_threshold.valid(),
        ensures
            client.inv(),
            client.peers == peers,
            client.options == options,
            client.verifier.header_hasher == header_hasher,
            client.verifier.commit_validator == commit_validator,
            client.verifier.clock_drift == options.clock_drift,
            client.clock == clock,
            client.io == io,
            client.trace@ == Map::<Height, Seq<Height>>::empty(),
            client.store@ == match seed {
                Some(block) => Map::<Height, (LightBlockView, VerificationStatus)>::empty().insert(
                    block@.height(),
                    (block@, VerificationStatus::Trusted),
                ),
                None => Map::<Height, (LightBlockView, VerificationStatus)>::empty(),
            },
    {
        let mut store = Store::new();
        match seed {
            Some(block) => {
                store.insert(block, VerificationStatus::Trusted);
            },
            None => {},
        }
        let client = LightClient {
            peers,
            store,
            trace: Trace::new(),
            options,
            verifier: Verifier::new(
                ProdPredicates,
                ProdVotingPowerCalculator,
                commit_validator,
                header_hasher,
                options.clock_drift,
            ),
            clock,
            io,
        };
        proof {
            reveal(grounded);
        }
        client
    }

    /// The highest block that is verified or is the seed.
    pub fn latest_trusted(&self) -> (r: Option<&LightBlock>)
        requires
            self.inv(),
        ensures
            match r {
                Some(block) => is_highest(
                    self.store@,
                    block@.height(),
                    VerificationStatus::Trusted,
                    VerificationStatus::Verified,
                ) && self.store@[block@.height()].0 == block@,
                None => none_with(
                    self.store@,
                    VerificationStatus::Trusted,
                    VerificationStatus::Verified,
                ),
            },
    {
        self.store.highest_trusted_or_verified()
    }

    /// What the client makes of a block it was handed for `height`: the block
    /// must lie at that height and be what it claims to be; and where the store
    /// holds a block that is verified or the seed, the new one must have the
    /// same header.
    pub open spec fn ingest_verdict(&self, block: LightBlockView, height: Height) -> Result<
        (),
        ErrorKind,
    > {
        if block.height() != height {
            Err(ErrorKind::UnexpectedHeight)
        } else if self.verifier.ingest_verdict(block) is Err {
            self.verifier.ingest_verdict(block)
        } else if self.store@.dom().contains(height) && self.store@[height].1.trustworthy()
            && self.verifier.header_hasher.header_digest(block.signed_header.header)
            != self.verifier.header_hasher.header_digest(self.store@[height].0.signed_header.header) {
            Err(ErrorKind::HeaderHashMismatch)
        } else {
            Ok(())
        }
    }

    /// The store after the client was handed `block` for `height`: an
    /// acceptable block is filed as undecided, under the primary's name, unless
    /// the store holds a block there that is verified or the seed.
    pub open spec fn filed(&self, block: LightBlockView, height: Height) -> StoreMap {
        if self.ingest_verdict(block, height) is Ok && !(self.store@.dom().contains(height)
            && self.store@[height].1.trustworthy()) {
            self.store@.insert(
                height,
                (
                    LightBlockView {
                        signed_header: block.signed_header,
                        validators: block.validators,
                        next_validators: block.next_validators,
                        provider: self.peers.primary,
                    },
                    VerificationStatus::Unverified,
                ),
            )
        } else {
            self.store@
        }
    }

    /// Takes in a block that the primary supplied for `height`.
    pub fn ingest(&mut self, block: LightBlock, height: Height) -> (r: Result<(), ErrorKind>)
        requires
            old(self).inv(),
        ensures
            final(self).inv(),
            final(self).same_setup(old(self)),
            final(self).peers == old(self).peers,
            final(self).trace == old(self).trace,
            final(self).clock == old(self).clock,
            final(self).io == old(self).io,
            r == old(self).ingest_verdict(block@, height),
            final(self).store@ == old(self).filed(block@, height),
            settled(old(self).store@, final(self).store@),
            evolves(old(self).store@, final(self).store@),
            files_for(old(self).store@, final(self).store@, old(self).peers.primary),
    {
        let ghost before = self.store@;
        proof {
            lemma_settled_same(before);
            lemma_settled_evolves(self.verifier, self.options, before, before);
            lemma_files_same(before, self.peers.primary);
        }
        if block.height() != height {
            return Err(ErrorKind::UnexpectedHeight);
        }
        match self.verifier.inspect(&block) {
            Err(kind) => {
                return Err(kind);
            },
            Ok(_) => {},
        }
        let known: Option<bool> = match self.store.get(height) {
            Some(entry) => {
                if entry.status.is_trustworthy() {
                    let ours = self.verifier.header_hasher.hash_header(&entry.block.signed_header.header);
                    let theirs = self.verifier.header_hasher.hash_header(&block.signed_header.header);
                    Some(theirs.same(&ours))
                } else {
                    None
                }
            },
            None => None,
        };
        match known {
            Some(same) => {
                if same {
                    Ok(())
                } else {
                    Err(ErrorKind::HeaderHashMismatch)
                }
            },
            None => {
                self.store.discard(height);
                let mut block = block;
                block.provider = self.peers.primary;
                let done = self.store.insert(block, VerificationStatus::Unverified);
                proof {
                    assert(done);
                    assert(self.store@ =~= before.insert(
                        height,
                        (block@, VerificationStatus::Unverified),
                    ));
                    assert(settled(before, self.store@)) by {
                        reveal(settled);
                    }
                    assert(files_for(before, self.store@, self.peers.primary)) by {
                        reveal(files_for);
                    }
                    lemma_settled_evolves(self.verifier, self.options, before, self.store@);
                }
                Ok(())
            },
        }
    }

    /// Lets the verifier decide on the undecided block at `current`, on the
    /// strength of the block at `trusted`, and asks the scheduler what follows.
    /// A block that is accepted becomes verified and joins the path to
    /// `target`; a block whose rejection is final becomes failed.
    fn step(&mut self, trusted: Height, current: Height, target: Height, now: Time) -> (r: (
        Verdict,
        Step,
    ))
        requires
            old(self).inv(),
            old(self).store@.dom().contains(trusted),
            old(self).store@[trusted].1.trustworthy(),
            old(self).store@.dom().contains(current),
            old(self).store@[current].1 == VerificationStatus::Unverified,
        ensures
            final(self).inv(),
            final(self).same_setup(old(self)),
            final(self).peers == old(self).peers,
            final(self).clock == old(self).clock,
            final(self).io == old(self).io,
            evolves(old(self).store@, final(self).store@),
            r.0 == match old(self).verifier.verdict_on(
                old(self).store@[trusted].0,
                old(self).store@[current].0,
                old(self).options.trust_threshold,
                old(self).options.trusting_period,
                now,
            ) {
                Ok(_) => Verdict::Verified,
                Err(kind) => Verdict::Invalid { at: current, kind },
            },
            r.1 == next_step(if r.0 is Verified { current } else { trusted }, target, r.0),
            r.0 is Verified ==> supports(
                final(self).verifier,
                final(self).options,
                final(self).store@,
                trusted,
                current,
            ),
            !(r.0 is Verified) ==> settled(old(self).store@, final(self).store@),
            files_for(old(self).store@, final(self).store@, old(self).peers.primary),
            final(self).stepped(old(self), trusted, current, target, now, r),
            final(self).store@ == if r.0 is Verified {
                old(self).store@.insert(
                    current,
                    (old(self).store@[current].0, VerificationStatus::Verified),
                )
            } else if r.1 is Abort {
                old(self).store@.insert(
                    current,
                    (old(self).store@[current].0, VerificationStatus::Failed),
                )
            } else {
                old(self).store@
            },
            final(self).trace@ == if r.0 is Verified {
                old(self).trace@.insert(target, path_of(old(self).trace@, target).push(current))
            } else {
                old(self).trace@
            },
    {
        let ghost before = self.store@;
        proof {
            self.store.lemma_filed_by_height();
        }
        // Both blocks are in the store: the caller has seen to that.
        let decision = match self.store.get(trusted) {
            Some(lower) => match self.store.get(current) {
                Some(upper) => self.verifier.verify(
                    &lower.block,
                    &upper.block,
                    self.options.trust_threshold,
                    self.options.trusting_period,
                    now,
                ),
                None => Err(ErrorKind::UnexpectedHeight),
            },
            None => Err(ErrorKind::UnexpectedHeight),
        };
        match decision {
            Ok(_) => {
                self.store.promote(current, VerificationStatus::Verified);
                self.trace.record(target, current);
                proof {
                    assert(self.verifier.accepts(
                        before[trusted].0,
                        before[current].0,
                        self.options.trust_threshold,
                        self.options.trusting_period,
                        now,
                    ));
                    assert(trusted < current);
                    assert(evolves(before, self.store@)) by {
                        reveal(evolves);
                    }
                    assert(supports(self.verifier, self.options, self.store@, trusted, current));
                    assert(files_for(before, self.store@, self.peers.primary)) by {
                        reveal(files_for);
                    }
                    lemma_grounded_preserved(self.verifier, self.options, before, self.store@);
                    assert(Seq::<Height>::empty().push(current) =~= seq![current]);
                }
                (Verdict::Verified, schedule(current, target, Verdict::Verified))
            },
            Err(kind) => {
                let verdict = Verdict::Invalid { at: current, kind };
                let next = schedule(trusted, target, verdict);
                match next {
                    Step::Abort(_) => {
                        self.store.promote(current, VerificationStatus::Failed);
                        proof {
                            assert(settled(before, self.store@)) by {
                                reveal(settled);
                            }
                            assert(files_for(before, self.store@, self.peers.primary)) by {
                                reveal(files_for);
                            }
                            lemma_settled_evolves(self.verifier, self.options, before, self.store@);
                        }
                    },
                    _ => {
                        proof {
                            lemma_settled_same(before);
                            lemma_files_same(before, self.peers.primary);
                            lemma_settled_evolves(self.verifier, self.options, before, before);
                        }
                    },
                }
                (verdict, next)
            },
        }
    }

    /// What the verifier says, at the time `now`, of the block at `target` on
    /// the strength of the block at the tip of the way from `origin`.
    pub open spec fn first_verdict(&self, origin: Height, target: Height, now: Time) -> Result<
        (),
        ErrorKind,
    > {
        self.verifier.verdict_on(
            self.store@[tip(origin, path_of(self.trace@, target))].0,
            self.store@[target].0,
            self.options.trust_threshold,
            self.options.trusting_period,
            now,
        )
    }

    /// What one step has come to: `done` is the verifier's verdict on the
    /// block at `current`, on the strength of the block at `trusted`, and what
    /// the scheduler names next. An accepted block has become verified and
    /// joined the path to `target`; a block whose rejection is final has become
    /// failed; otherwise nothing has changed.
    pub open spec fn stepped(
        &self,
        before: &Self,
        trusted: Height,
        current: Height,
        target: Height,
        now: Time,
        done: (Verdict, Step),
    ) -> bool {
        &&& done.0 == match before.verifier.verdict_on(
            before.store@[trusted].0,
            before.store@[current].0,
            before.options.trust_threshold,
            before.options.trusting_period,
            now,
        ) {
            Ok(_) => Verdict::Verified,
            Err(kind) => Verdict::Invalid { at: current, kind },
        }
        &&& done.1 == next_step(if done.0 is Verified { current } else { trusted }, target, done.0)
        &&& self.store@ == if done.0 is Verified {
            before.store@.insert(current, (before.store@[current].0, VerificationStatus::Verified))
        } else if done.1 is Abort {
            before.store@.insert(current, (before.store@[current].0, VerificationStatus::Failed))
        } else {
            before.store@
        }
        &&& self.trace@ == if done.0 is Verified {
            before.trace@.insert(target, path_of(before.trace@, target).push(current))
        } else {
            before.trace@
        }
    }

    /// Takes one step towards `target`: lets the verifier decide, at the time
    /// `now`, on the undecided block at `current` on the strength of the block
    /// at `trusted`, and asks the scheduler what follows. Nothing is done, and
    /// `None` returned, unless the store holds a block at `trusted` that is
    /// verified or the seed and an undecided block at `current`.
    pub fn transition(&mut self, trusted: Height, current: Height, target: Height, now: Time) -> (r:
        Option<(Verdict, Step)>)
        requires
            old(self).inv(),
        ensures
            final(self).inv(),
            final(self).same_setup(old(self)),
            final(self).peers == old(self).peers,
            final(self).clock == old(self).clock,
            final(self).io == old(self).io,
            evolves(old(self).store@, final(self).store@),
            r is Some <==> old(self).store@.dom().contains(trusted) && old(self).store@[trusted].1.trustworthy() && old(self).store@.dom().contains(current) && old(self).store@[current].1 == VerificationStatus::Unverified,
            r matches Some(done) ==> final(self).stepped(
                old(self),
                trusted,
                current,
                target,
                now,
                done,
            ),
            r is None ==> final(self).store@ == old(self).store@ && final(self).trace@ == old(self).trace@,
    {
        let grounded_there = match self.store.get(trusted) {
            Some(entry) => entry.status.is_trustworthy(),
            None => false,
        };
        let undecided_here = match self.store.get(current) {
            Some(entry) => entry.status == VerificationStatus::Unverified,
            None => false,
        };
        if grounded_there && undecided_here {
            Some(self.step(trusted, current, target, now))
        } else {
            proof {
                lemma_evolves_same(self.store@);
            }
            None
        }
    }

    /// Looks at what the store holds at `height`.
    fn holding(&self, height: Height) -> (r: Held)
        requires
            self.inv(),
        ensures
            match r {
                Held::Nothing => !self.store@.dom().contains(height),
                Held::Foreign => self.store@.dom().contains(height)
                    && !self.store@[height].1.trustworthy() && self.store@[height].0.provider
                    != self.peers.primary,
                Held::Trustworthy => self.store@.dom().contains(height)
                    && self.store@[height].1.trustworthy(),
                Held::Undecided => self.store@.dom().contains(height) && self.store@[height].1
                    == VerificationStatus::Unverified && self.store@[height].0.provider
                    == self.peers.primary,
                Held::Rejected => rejected_at(self.store@, height, self.peers.primary),
            },
    {
        match self.store.get(height) {
            Some(entry) => {
                if entry.status.is_trustworthy() {
                    Held::Trustworthy
                } else if !entry.block.provider.same(&self.peers.primary) {
                    Held::Foreign
                } else if entry.status == VerificationStatus::Failed {
                    Held::Rejected
                } else {
                    Held::Undecided
                }
            },
            None => Held::Nothing,
        }
    }

    /// Makes sure the store holds an undecided block of the primary at
    /// `height`: unless it does already, what another peer left there is
    /// dropped and the primary is asked for its block. Tells whether the block
    /// is there; it is not when the primary does not answer or answers with a
    /// block that is not what it claims to be.
    fn prepare(&mut self, height: Height, undecided: bool) -> (ready: bool)
        requires
            old(self).inv(),
            old(self).store@.dom().contains(height) ==> !old(self).store@[height].1.trustworthy(),
            undecided ==> old(self).store@.dom().contains(height) && old(self).store@[height].1
                == VerificationStatus::Unverified && old(self).store@[height].0.provider == old(self).peers.primary,
        ensures
            final(self).inv(),
            final(self).same_setup(old(self)),
            final(self).peers == old(self).peers,
            final(self).clock == old(self).clock,
            final(self).trace == old(self).trace,
            settled(old(self).store@, final(self).store@),
            evolves(old(self).store@, final(self).store@),
            ready ==> final(self).store@.dom().contains(height) && final(self).store@[height].1
                == VerificationStatus::Unverified && final(self).store@[height].0.provider
                == final(self).peers.primary,
            undecided ==> ready && final(self).store@ == old(self).store@ && final(self).io == old(self).io,
            !undecided ==> final(self).io.asked() == old(self).io.asked().push(
                Request::LightBlock { peer: old(self).peers.primary, height },
            ),
            !undecided ==> final(self).store@.remove(height) == old(self).store@.remove(height),
            !undecided && !ready ==> final(self).store@ == old(self).store@.remove(height),
            files_for(old(self).store@, final(self).store@, old(self).peers.primary),
    {
        let ghost before = self.store@;
        if undecided {
            proof {
                lemma_files_same(before, self.peers.primary);
                lemma_settled_same(before);
                lemma_settled_evolves(self.verifier, self.options, before, before);
            }
            return true;
        }
        self.store.discard(height);
        proof {
            assert(settled(before, self.store@)) by {
                reveal(settled);
            }
            assert(files_for(before, self.store@, self.peers.primary)) by {
                reveal(files_for);
            }
            lemma_settled_evolves(self.verifier, self.options, before, self.store@);
        }
        let ghost cleared = self.store@;
        let primary = self.peers.primary;
        match self.io.fetch_light_block(primary, height) {
            Ok(block) => {
                let taken = self.ingest(block, height);
                proof {
                    lemma_settled_transitive(before, cleared, self.store@);
                    lemma_files_transitive(before, cleared, self.store@, primary);
                    lemma_settled_evolves(self.verifier, self.options, before, self.store@);
                    assert(cleared =~= before.remove(height));
                    assert(self.store@.remove(height) =~= before.remove(height));
                }
                taken.is_ok()
            },
            Err(_) => {
                proof {
                    assert(cleared =~= before.remove(height));
                }
                false
            },
        }
    }

    /// Works towards `target` with the current primary: from the tip of the way
    /// gone so far it fetches, verifies and bisects until the target is
    /// verified, a block is rejected for good, or the primary fails.
    fn advance(&mut self, origin: Height, target: Height, now: Time) -> (r: Result<(), Halt>)
        requires
            old(self).inv(),
            origin < target,
            old(self).on_the_way(origin, target),
            tip(origin, path_of(old(self).trace@, target)) < target,
        ensures
            final(self).inv(),
            final(self).same_setup(old(self)),
            final(self).peers == old(self).peers,
            final(self).clock == old(self).clock,
            evolves(old(self).store@, final(self).store@),
            final(self).on_the_way(origin, target),
            r is Ok ==> final(self).arrived(origin, target),
            r is Err ==> tip(origin, path_of(final(self).trace@, target)) < target,
            r matches Err(Halt::Failed(e)) ==> e matches Error::InvalidLightBlock {
                kind,
                height,
                peer,
            } && peer == final(self).peers.primary && origin < height <= target && rejected_at(
                final(self).store@,
                height,
                peer,
            ) && final(self).turned_down(height, target, now, kind),
            begins_with(final(self).io.asked(), old(self).io.asked()),
            files_for(old(self).store@, final(self).store@, old(self).peers.primary),
            rejected_at(old(self).store@, target, old(self).peers.primary) ==> {
                &&& r matches Err(Halt::Failed(e)) && e == (Error::InvalidLightBlock {
                    kind: ErrorKind::AlreadyFailed,
                    height: target,
                    peer: old(self).peers.primary,
                })
                &&& final(self).store@ == old(self).store@
                &&& final(self).trace == old(self).trace
                &&& final(self).io == old(self).io
            },
            undecided_at(old(self).store@, target, old(self).peers.primary) ==> match old(self).first_verdict(origin, target, now) {
                Ok(_) => {
                    &&& r is Ok
                    &&& final(self).store@ == old(self).store@.insert(
                        target,
                        (old(self).store@[target].0, VerificationStatus::Verified),
                    )
                    &&& final(self).trace@ == old(self).trace@.insert(
                        target,
                        path_of(old(self).trace@, target).push(target),
                    )
                    &&& final(self).io == old(self).io
                },
                Err(kind) => next_step(
                    tip(origin, path_of(old(self).trace@, target)),
                    target,
                    Verdict::Invalid { at: target, kind },
                ) is Abort ==> {
                    &&& r matches Err(Halt::Failed(e)) && e == (Error::InvalidLightBlock {
                        kind,
                        height: target,
                        peer: old(self).peers.primary,
                    })
                    &&& final(self).store@ == old(self).store@.insert(
                        target,
                        (old(self).store@[target].0, VerificationStatus::Failed),
                    )
                    &&& final(self).trace@ == old(self).trace@
                    &&& final(self).io == old(self).io
                },
            },
            !rejected_at(old(self).store@, target, old(self).peers.primary) && !undecided_at(
                old(self).store@,
                target,
                old(self).peers.primary,
            ) ==> begins_with(
                final(self).io.asked(),
                old(self).io.asked().push(
                    Request::LightBlock { peer: old(self).peers.primary, height: target },
                ),
            ),
    {
        let ghost start = self.store@;
        let ghost asked = self.io.asked();
        let ghost verdict0 = self.first_verdict(origin, target, now);
        let ghost tip0 = tip(origin, path_of(self.trace@, target));
        let ghost request = Request::LightBlock { peer: self.peers.primary, height: target };
        let ghost mut first = true;
        let primary = self.peers.primary;
        proof {
            lemma_files_same(start, primary);
            lemma_evolves_same(start);
            lemma_traced_tip(
                self.verifier,
                self.options,
                start,
                origin,
                target,
                path_of(self.trace@, target),
            );
            lemma_latest(start, tip(origin, path_of(self.trace@, target)));
        }
        let mut trusted: Height = match self.store.highest_trusted_or_verified() {
            Some(block) => {
                proof {
                    lemma_latest(start, block@.height());
                }
                block.height()
            },
            None => {
                // The block at the origin never leaves the store.
                return Err(Halt::Failed(Error::NoInitialTrustedState));
            },
        };
        let mut current: Height = target;
        loop
            invariant
                self.inv(),
                self.same_setup(old(self)),
                self.peers == old(self).peers,
                self.clock == old(self).clock,
                primary == self.peers.primary,
                start == old(self).store@,
                asked == old(self).io.asked(),
                verdict0 == old(self).first_verdict(origin, target, now),
                tip0 == tip(origin, path_of(old(self).trace@, target)),
                request == (Request::LightBlock { peer: primary, height: target }),
                evolves(start, self.store@),
                files_for(start, self.store@, primary),
                self.on_the_way(origin, target),
                trusted == tip(origin, path_of(self.trace@, target)),
                self.store@.dom().contains(trusted),
                self.store@[trusted].1.trustworthy(),
                origin <= trusted < current <= target,
                begins_with(self.io.asked(), asked),
                first ==> current == target && trusted == tip0 && self.store@ == start && self.io
                    == old(self).io && self.trace == old(self).trace,
                !first ==> !rejected_at(start, target, primary),
                !first && undecided_at(start, target, primary) ==> (verdict0 matches Err(kind)
                    && !(next_step(tip0, target, Verdict::Invalid { at: target, kind }) is Abort)),
                !first && !undecided_at(start, target, primary) ==> begins_with(
                    self.io.asked(),
                    asked.push(request),
                ),
            decreases target - trusted, current - trusted,
        {
            let held = self.holding(current);
            match held {
                Held::Trustworthy => {
                    // Nothing above the tip is verified, so this does not
                    // come about; if it did, trust would go on from here.
                    proof {
                        lemma_traced_tip(
                            self.verifier,
                            self.options,
                            self.store@,
                            origin,
                            target,
                            path_of(self.trace@, target),
                        );
                    }
                    trusted = current;
                    if trusted >= target {
                        return Ok(());
                    }
                    current = target;
                    proof {
                        first = false;
                    }
                },
                Held::Rejected => {
                    return Err(
                        Halt::Failed(
                            Error::InvalidLightBlock {
                                kind: ErrorKind::AlreadyFailed,
                                height: current,
                                peer: primary,
                            },
                        ),
                    );
                },
                _ => {
                    let undecided = match held {
                        Held::Undecided => true,
                        _ => false,
                    };
                    let ghost here = self.store@;
                    let ghost so_far = self.io.asked();
                    let ready = self.prepare(current, undecided);
                    proof {
                        lemma_begins_push(
                            so_far,
                            Request::LightBlock { peer: primary, height: current },
                        );
                        lemma_begins_transitive(self.io.asked(), so_far, asked);
                        if !first && !undecided_at(start, target, primary) {
                            lemma_begins_transitive(self.io.asked(), so_far, asked.push(request));
                        }
                        lemma_begins_push(asked, request);
                        lemma_files_transitive(start, here, self.store@, primary);
                        lemma_evolves_transitive(start, here, self.store@);
                        lemma_evolves_keeps(here, self.store@, trusted);
                        lemma_traced_settled(
                            self.verifier,
                            self.options,
                            here,
                            self.store@,
                            origin,
                            target,
                            path_of(self.trace@, target),
                        );
                    }
                    if !ready {
                        return Err(Halt::PrimaryFailed);
                    }
                    let ghost here = self.store@;
                    let ghost path = path_of(self.trace@, target);
                    let (verdict, next) = self.step(trusted, current, target, now);
                    proof {
                        lemma_files_transitive(start, here, self.store@, primary);
                        lemma_evolves_transitive(start, here, self.store@);
                        lemma_evolves_keeps(here, self.store@, trusted);
                        if verdict is Verified {
                            lemma_traced_extend(
                                self.verifier,
                                self.options,
                                here,
                                self.store@,
                                origin,
                                target,
                                path,
                                current,
                            );
                        } else {
                            lemma_traced_settled(
                                self.verifier,
                                self.options,
                                here,
                                self.store@,
                                origin,
                                target,
                                path,
                            );
                        }
                    }
                    match next {
                        Step::Done => {
                            return Ok(());
                        },
                        Step::Fetch(height) => {
                            match verdict {
                                Verdict::Verified => {
                                    trusted = current;
                                },
                                _ => {},
                            }
                            current = height;
                            proof {
                                first = false;
                            }
                        },
                        Step::Abort(kind) => {
                            proof {
                                assert(refused(
                                    self.verifier,
                                    self.options,
                                    self.store@,
                                    trusted,
                                    current,
                                    target,
                                    now,
                                    kind,
                                ));
                                assert(self.turned_down(current, target, now, kind));
                            }
                            return Err(
                                Halt::Failed(
                                    Error::InvalidLightBlock {
                                        kind,
                                        height: current,
                                        peer: primary,
                                    },
                                ),
                            );
                        },
                    }
                },
            }
        }
    }

    /// Holds the verified block at `target` against every witness and settles
    /// what they brought.
    fn cross_check(&mut self, target: Height, origin: Height, now: Time) -> (r: Result<
        LightBlock,
        Error,
    >)
        requires
            old(self).inv(),
            old(self).store@.dom().contains(target),
            old(self).store@[target].1.trustworthy(),
            old(self).store@.dom().contains(origin),
        ensures
            final(self).inv(),
            final(self).same_setup(old(self)),
            final(self).store == old(self).store,
            final(self).trace == old(self).trace,
            final(self).clock == old(self).clock,
            final(self).peers.primary == old(self).peers.primary,
            drawn_from(old(self).peers, final(self).peers),
            r matches Ok(block) ==> reached(final(self).store@, target, block@),
            r matches Err(e) ==> e is ForkDetected || e is FaultyWitness,
            r matches Err(Error::ForkDetected { primary, witness, witness_id }) ==> {
                &&& conflicting(final(self).verifier, final(self).store@, target, primary@, witness@)
                &&& fork_backed(
                    final(self).verifier,
                    final(self).options,
                    final(self).store@[origin].0,
                    path_of(final(self).trace@, target),
                    witness@,
                )
            },
            r matches Err(Error::FaultyWitness { witness_id }) ==> final(self).peers.witnesses@.len() == 0,
            begins_with(final(self).io.asked(), old(self).io.asked()),
            old(self).peers.witnesses@.len() == 0 ==> r is Ok && final(self).peers == old(self).peers
                && final(self).io == old(self).io,
            old(self).peers.witnesses@.len() > 0 ==> begins_with(
                final(self).io.asked(),
                old(self).io.asked().push(
                    Request::LightBlock { peer: old(self).peers.witnesses@[0], height: target },
                ),
            ),
    {
        proof {
            self.store.lemma_filed_by_height();
            lemma_begins_push(
                self.io.asked(),
                Request::LightBlock { peer: self.peers.primary, height: target },
            );
        }
        let ghost asked = self.io.asked();
        // Both blocks are in the store: the caller has seen to that.
        let verified = match self.store.get(target) {
            Some(entry) => entry.block.clone(),
            None => {
                return Err(Error::NoInitialTrustedState);
            },
        };
        let seed = match self.store.get(origin) {
            Some(entry) => entry.block.clone(),
            None => {
                return Err(Error::NoInitialTrustedState);
            },
        };
        let path: Vec<Height> = match self.trace.get(target) {
            Some(heights) => copy_vec(heights),
            None => Vec::new(),
        };
        let witnesses = copy_vec(&self.peers.witnesses);
        let mut findings: Vec<(PeerId, Finding)> = Vec::new();
        let mut i: usize = 0;
        while i < witnesses.len()
            invariant
                i <= witnesses@.len(),
                findings@.len() == i,
                self.inv(),
                self.same_setup(old(self)),
                self.store == old(self).store,
                self.trace == old(self).trace,
                self.clock == old(self).clock,
                self.peers == old(self).peers,
                witnesses@ == old(self).peers.witnesses@,
                verified@.height() == target,
                asked == old(self).io.asked(),
                begins_with(self.io.asked(), asked),
                i == 0 ==> self.io == old(self).io,
                i > 0 ==> begins_with(
                    self.io.asked(),
                    asked.push(Request::LightBlock { peer: witnesses@[0], height: target }),
                ),
                forall|k: int|
                    0 <= k < findings@.len() ==> backed(
                        self.verifier,
                        verified@,
                        seed@,
                        path@,
                        self.options.trust_threshold,
                        self.options.trusting_period,
                        now,
                        (#[trigger] findings@[k]).1,
                    ),
            decreases witnesses@.len() - i,
        {
            let witness = witnesses[i];
            let ghost so_far = self.io.asked();
            let finding = examine_witness(
                &self.verifier,
                &mut self.io,
                witness,
                &verified,
                &seed,
                &path,
                self.options.trust_threshold,
                self.options.trusting_period,
                now,
            );
            proof {
                let request = Request::LightBlock { peer: witness, height: target };
                lemma_begins_push(so_far, request);
                lemma_begins_transitive(self.io.asked(), so_far.push(request), so_far);
                lemma_begins_transitive(self.io.asked(), so_far, asked);
                if i > 0 {
                    lemma_begins_transitive(
                        self.io.asked(),
                        so_far,
                        asked.push(Request::LightBlock { peer: witnesses@[0], height: target }),
                    );
                }
            }
            findings.push((witness, finding));
            i = i + 1;
        }
        proof {
            if witnesses@.len() == 0 {
                assert(findings@ =~= Seq::<(PeerId, Finding)>::empty());
            }
        }
        let ghost kept = verified@;
        let r = settle(&mut self.peers, verified, &findings);
        proof {
            lemma_first_fork(findings@);
            if first_fork(findings@) is Some {
                let k = first_fork(findings@)->0;
                let header = findings@[k].1->Fork_0;
                assert(findings@[k].1@ == FindingView::Fork(header@));
                assert(backed(
                    self.verifier,
                    kept,
                    seed@,
                    path@,
                    self.options.trust_threshold,
                    self.options.trusting_period,
                    now,
                    findings@[k].1,
                ));
                let blocks = choose|blocks: Seq<LightBlock>|
                    blocks.len() > 0 && blocks.last()@.signed_header == header@
                        && #[trigger] justified(
                        self.verifier,
                        seed@,
                        blocks,
                        path@,
                        self.options.trust_threshold,
                        self.options.trusting_period,
                        now,
                    );
                assert(justified(
                    self.verifier,
                    seed@,
                    blocks,
                    path@,
                    self.options.trust_threshold,
                    self.options.trusting_period,
                    now,
                ));
            }
        }
        r
    }

    /// The height a call at the time `now` starts from: that of the latest
    /// block that is verified or the seed, which must not have expired.
    fn starting_point(&self, now: Time) -> (r: Result<Height, Error>)
        requires
            self.inv(),
        ensures
            if none_with(self.store@, VerificationStatus::Trusted, VerificationStatus::Verified) {
                r matches Err(Error::NoInitialTrustedState)
            } else if !not_expired(
                self.store@[latest(self.store@)].0,
                self.options.trusting_period,
                now,
            ) {
                r matches Err(Error::TrustedStateExpired { trusted_time, trusting_period, now: at })
                    && self.expired_at(trusted_time, trusting_period, at) && at == now
            } else {
                r matches Ok(origin) && origin == latest(self.store@) && is_highest(
                    self.store@,
                    origin,
                    VerificationStatus::Trusted,
                    VerificationStatus::Verified,
                )
            },
    {
        proof {
            self.store.lemma_filed_by_height();
        }
        match self.store.highest_trusted_or_verified() {
            Some(seed) => {
                proof {
                    lemma_latest(self.store@, seed@.height());
                }
                match check_not_expired(seed, self.options.trusting_period, now) {
                    Ok(_) => Ok(seed.height()),
                    Err(_) => {
                        let trusted_time = seed.signed_header.header.time;
                        Err(
                            Error::TrustedStateExpired {
                                trusted_time,
                                trusting_period: self.options.trusting_period,
                                now,
                            },
                        )
                    },
                }
            },
            None => Err(Error::NoInitialTrustedState),
        }
    }

    /// The latest block that is verified or the seed has the time
    /// `trusted_time` and is no longer within the trusting period at `now`.
    pub open spec fn expired_at(
        &self,
        trusted_time: Time,
        trusting_period: Duration,
        now: Time,
    ) -> bool {
        let height = latest(self.store@);
        &&& is_highest(
            self.store@,
            height,
            VerificationStatus::Trusted,
            VerificationStatus::Verified,
        )
        &&& self.store@[height].0.time() == trusted_time
        &&& trusting_period == self.options.trusting_period
        &&& !not_expired(self.store@[height].0, trusting_period, now)
    }

    /// The kind under which the block at `height` was rejected is the one the
    /// verifier gave for it at the time `now`, on the strength of a block of
    /// the store that is verified or the seed, and the scheduler took for
    /// final; unless the block had been rejected before.
    pub open spec fn turned_down(
        &self,
        height: Height,
        target: Height,
        now: Time,
        kind: ErrorKind,
    ) -> bool {
        kind == ErrorKind::AlreadyFailed || exists|lower: Height| #[trigger]
            refused(
                self.verifier,
                self.options,
                self.store@,
                lower,
                height,
                target,
                now,
                kind,
            )
    }

    /// What a call for a target above `origin` has come to, where `origin` is
    /// the height the call started from and `self` the client after the call.
    ///
    /// A block that is returned, alone or as one side of a fork, is the
    /// verified block at the target, and trust went all the way to it along the
    /// path recorded for the target. A rejected block lies above the origin, at
    /// most at the target, and is in the store as failed under the primary's
    /// name; the kind is the one the verifier gave for that block on the
    /// strength of a block of the store, unless the block had failed before.
    pub open spec fn went(
        &self,
        origin: Height,
        target: Height,
        now: Time,
        r: Result<LightBlock, Error>,
    ) -> bool {
        &&& r matches Ok(block) ==> reached(self.store@, target, block@) && self.arrived(
            origin,
            target,
        )
        &&& r matches Err(e) ==> e is InvalidLightBlock || e is NoPrimary || e is ForkDetected
            || e is FaultyWitness
        &&& r matches Err(Error::InvalidLightBlock { kind, height, peer }) ==> {
            &&& origin < height <= target
            &&& peer == self.peers.primary
            &&& rejected_at(self.store@, height, peer)
            &&& self.turned_down(height, target, now, kind)
        }
        &&& r matches Err(Error::NoPrimary) ==> self.peers.witnesses@.len() == 0
        &&& r matches Err(Error::ForkDetected { primary, witness, witness_id }) ==> {
            &&& conflicting(self.verifier, self.store@, target, primary@, witness@)
            &&& self.arrived(origin, target)
            &&& fork_backed(
                self.verifier,
                self.options,
                self.store@[origin].0,
                path_of(self.trace@, target),
                witness@,
            )
        }
        &&& r matches Err(Error::FaultyWitness { witness_id }) ==> {
            &&& self.peers.witnesses@.len() == 0
            &&& self.store@.dom().contains(target)
            &&& self.store@[target].1.trustworthy()
            &&& self.arrived(origin, target)
        }
    }

    /// What a call for `target` at the time `now` has come to, where `before`
    /// is the client before the call and `self` the client after it.
    ///
    /// Without a block that is verified or the seed the call fails, and when
    /// the latest such block has expired at `now` it fails; either way nothing
    /// changes. A target at or below that block is looked up: the call returns
    /// the block at the target where the store holds one that is verified or
    /// the seed, and fails otherwise; nothing changes. For a higher target see
    /// [`Self::went`].
    pub open spec fn outcome(
        &self,
        before: &Self,
        target: Height,
        now: Time,
        r: Result<LightBlock, Error>,
    ) -> bool {
        let map = before.store@;
        let top = latest(map);
        if none_with(map, VerificationStatus::Trusted, VerificationStatus::Verified) {
            r matches Err(Error::NoInitialTrustedState) && *self == *before
        } else if !not_expired(map[top].0, before.options.trusting_period, now) {
            r matches Err(Error::TrustedStateExpired { trusted_time, trusting_period, now: at })
                && trusted_time == map[top].0.time() && trusting_period
                == before.options.trusting_period && at == now && *self == *before
        } else if target <= top {
            if map.dom().contains(target) && map[target].1.trustworthy() {
                r matches Ok(block) && block@ == map[target].0 && *self == *before
            } else {
                r matches Err(Error::InvalidLightBlock { kind, height, peer }) && kind
                    == ErrorKind::NonMonotonicHeight && height == target && peer
                    == before.peers.primary && *self == *before
            }
        } else {
            self.went(top, target, now, r) && self.owed(before, top, target, now, r)
        }
    }

    /// What a call for a target above `origin` owes, by what the store held at
    /// the target beforehand.
    ///
    /// A block of the primary that had been rejected: the call fails with
    /// `AlreadyFailed` and nothing is asked or changed. An undecided block of
    /// the primary: nothing is asked of the primary, the verifier decides on
    /// that block on the strength of the block at the origin, and where it
    /// accepts, the block becomes verified, is the whole path, and is then held
    /// against the witnesses, the first of them first; without witnesses it is
    /// returned. Where the verifier's rejection is final, the call fails with
    /// its kind and the block becomes failed. Anything else at the target, or
    /// nothing: the first thing asked is the primary's block at the target.
    pub open spec fn owed(
        &self,
        before: &Self,
        origin: Height,
        target: Height,
        now: Time,
        r: Result<LightBlock, Error>,
    ) -> bool {
        let map = before.store@;
        let primary = before.peers.primary;
        if rejected_at(map, target, primary) {
            &&& r matches Err(Error::InvalidLightBlock { kind, height, peer }) && kind
                == ErrorKind::AlreadyFailed && height == target && peer == primary
            &&& self.store@ == map
            &&& self.peers == before.peers
            &&& self.io == before.io
        } else if undecided_at(map, target, primary) {
            match before.verifier.verdict_on(
                map[origin].0,
                map[target].0,
                before.options.trust_threshold,
                before.options.trusting_period,
                now,
            ) {
                Ok(_) => {
                    &&& self.store@ == map.insert(
                        target,
                        (map[target].0, VerificationStatus::Verified),
                    )
                    &&& path_of(self.trace@, target) == seq![target]
                    &&& if before.peers.witnesses@.len() == 0 {
                        &&& r matches Ok(block) && block@ == map[target].0
                        &&& self.peers == before.peers
                        &&& self.io == before.io
                    } else {
                        begins_with(
                            self.io.asked(),
                            before.io.asked().push(
                                Request::LightBlock {
                                    peer: before.peers.witnesses@[0],
                                    height: target,
                                },
                            ),
                        )
                    }
                },
                Err(rejection) => next_step(
                    origin,
                    target,
                    Verdict::Invalid { at: target, kind: rejection },
                ) is Abort ==> {
                    &&& r matches Err(Error::InvalidLightBlock { kind, height, peer }) && kind
                        == rejection && height == target && peer == primary
                    &&& self.store@ == map.insert(
                        target,
                        (map[target].0, VerificationStatus::Failed),
                    )
                    &&& self.peers == before.peers
                    &&& self.io == before.io
                },
            }
        } else {
            begins_with(
                self.io.asked(),
                before.io.asked().push(Request::LightBlock { peer: primary, height: target }),
            )
        }
    }

    /// No undecided block is left of a primary that was replaced since `before`.
    pub open spec fn rid_of_replaced(&self, before: &Self) -> bool {
        forall|p: PeerId| #[trigger]
            passed_over(before.peers, self.peers.primary, p) ==> cleared(self.store@, p)
    }

    /// Of a peer that was no peer of the client `before`, no undecided block
    /// has come into the store.
    pub open spec fn nothing_for_strangers(&self, before: &Self) -> bool {
        forall|p: PeerId|
            p != before.peers.primary && !before.peers.witnesses@.contains(p) && #[trigger] cleared(
                before.store@,
                p,
            ) ==> cleared(self.store@, p)
    }

    /// Advances the trusted state to `target`, taking `now` for the time.
    ///
    /// The call starts from the latest block that is verified or the seed, and
    /// fails at once when there is none or when it has expired. A target at or
    /// below that block is looked up in the store. Otherwise the client
    /// fetches the target from the primary and lets the verifier decide; a
    /// block rejected for insufficient overlap is bisected, any other rejection
    /// ends the call. When the primary fails, its undecided blocks are dropped
    /// and the first witness takes its place. Once the target is verified, it
    /// is held against the witnesses.
    pub fn verify_to_target_at(&mut self, target: Height, now: Time) -> (r: Result<
        LightBlock,
        Error,
    >)
        requires
            old(self).inv(),
        ensures
            final(self).inv(),
            final(self).same_setup(old(self)),
            final(self).clock == old(self).clock,
            evolves(old(self).store@, final(self).store@),
            drawn_from(old(self).peers, final(self).peers),
            begins_with(final(self).io.asked(), old(self).io.asked()),
            final(self).outcome(old(self), target, now, r),
            final(self).rid_of_replaced(old(self)),
            final(self).nothing_for_strangers(old(self)),
            r matches Err(Error::NoPrimary) ==> cleared(final(self).store@, final(self).peers.primary),
            r matches Err(Error::TrustedStateExpired { trusted_time, trusting_period, now: at })
                ==> old(self).expired_at(trusted_time, trusting_period, at),
            r matches Ok(block) ==> reached(final(self).store@, target, block@),
            r matches Ok(block) ==> final(self).store@[target].1 == VerificationStatus::Verified
                || (old(self).store@.dom().contains(target) && old(self).store@[target] == (
                block@,
                VerificationStatus::Trusted,
            )),
    {
        let ghost start = self.store@;
        let ghost peers = self.peers;
        let ghost asked = self.io.asked();
        let ghost request = Request::LightBlock { peer: self.peers.primary, height: target };
        let ghost mut first = true;
        let ghost mut k: int = 0;
        proof {
            self.store.lemma_filed_by_height();
            lemma_evolves_same(start);
            lemma_begins_push(asked, request);
            assert(self.peers.witnesses@.skip(0) =~= self.peers.witnesses@);
        }
        let origin: Height = match self.starting_point(now) {
            Ok(height) => height,
            Err(e) => {
                return Err(e);
            },
        };
        if target <= origin {
            return match self.store.get(target) {
                Some(entry) => {
                    if entry.status.is_trustworthy() {
                        let block = entry.block.clone();
                        proof {
                            if entry.status == VerificationStatus::Trusted {
                                assert(start[target] == (block@, VerificationStatus::Trusted));
                            }
                        }
                        Ok(block)
                    } else {
                        Err(
                            Error::InvalidLightBlock {
                                kind: ErrorKind::NonMonotonicHeight,
                                height: target,
                                peer: self.peers.primary,
                            },
                        )
                    }
                },
                None => Err(
                    Error::InvalidLightBlock {
                        kind: ErrorKind::NonMonotonicHeight,
                        height: target,
                        peer: self.peers.primary,
                    },
                ),
            };
        }
        self.trace.begin(target);
        let ghost verdict0 = self.verifier.verdict_on(
            start[origin].0,
            start[target].0,
            self.options.trust_threshold,
            self.options.trusting_period,
            now,
        );
        proof {
            lemma_traced_start(self.verifier, self.options, start, origin, target);
            assert(path_of(self.trace@, target) =~= Seq::<Height>::empty());
        }
        loop
            invariant
                self.inv(),
                self.same_setup(old(self)),
                self.clock == old(self).clock,
                start == old(self).store@,
                peers == old(self).peers,
                asked == old(self).io.asked(),
                request == (Request::LightBlock { peer: peers.primary, height: target }),
                verdict0 == old(self).verifier.verdict_on(
                    start[origin].0,
                    start[target].0,
                    old(self).options.trust_threshold,
                    old(self).options.trusting_period,
                    now,
                ),
                begins_with(self.io.asked(), asked),
                peers.wf(),
                replaced(peers, k, self.peers),
                forall|p: PeerId| #[trigger] passed_to(peers, k, p) ==> cleared(self.store@, p),
                forall|p: PeerId|
                    p != peers.primary && !peers.witnesses@.contains(p) && #[trigger] cleared(
                        start,
                        p,
                    ) ==> cleared(self.store@, p),
                first ==> self.store@ == start && self.io == old(self).io && self.peers == peers
                    && path_of(self.trace@, target) == Seq::<Height>::empty(),
                !first ==> !rejected_at(start, target, peers.primary),
                !first && undecided_at(start, target, peers.primary) ==> (verdict0 matches Err(
                    kind,
                ) && !(next_step(origin, target, Verdict::Invalid { at: target, kind })
                    is Abort)),
                !first && !undecided_at(start, target, peers.primary) ==> begins_with(
                    self.io.asked(),
                    asked.push(request),
                ),
                origin == latest(start),
                origin < target,
                !none_with(start, VerificationStatus::Trusted, VerificationStatus::Verified),
                not_expired(start[origin].0, self.options.trusting_period, now),
                evolves(start, self.store@),
                drawn_from(peers, self.peers),
                self.on_the_way(origin, target),
                tip(origin, path_of(self.trace@, target)) < target,
            decreases self.peers.witnesses@.len(),
        {
            let ghost here = self.store@;
            let ghost so_far = self.io.asked();
            let outcome = self.advance(origin, target, now);
            proof {
                let primary = self.peers.primary;
                let store = self.store@;
                let now_peers = self.peers;
                assert(peers.witnesses@.contains(primary) || primary == peers.primary) by {
                    if k > 0 {
                        assert(peers.witnesses@[k - 1] == primary);
                    }
                }
                assert forall|p: PeerId| #[trigger] passed_to(peers, k, p) implies cleared(
                    store,
                    p,
                ) by {
                    lemma_passed(peers, k, now_peers, p);
                    lemma_files_keep_clear(here, store, primary, p);
                }
                assert forall|p: PeerId|
                    p != peers.primary && !peers.witnesses@.contains(p) && #[trigger] cleared(
                        start,
                        p,
                    ) implies cleared(store, p) by {
                    lemma_files_keep_clear(here, store, primary, p);
                }
                assert forall|p: PeerId| #[trigger]
                    passed_over(peers, primary, p) implies cleared(store, p) by {
                    lemma_passed(peers, k, now_peers, p);
                }
                lemma_begins_transitive(self.io.asked(), so_far, asked);
                if !first && !undecided_at(start, target, peers.primary) {
                    lemma_begins_transitive(self.io.asked(), so_far, asked.push(request));
                }
            }
            match outcome {
                Ok(_) => {
                    proof {
                        lemma_evolves_transitive(start, here, self.store@);
                        lemma_traced_tip(
                            self.verifier,
                            self.options,
                            self.store@,
                            origin,
                            target,
                            path_of(self.trace@, target),
                        );
                        if first && undecided_at(start, target, peers.primary) && verdict0 is Ok {
                            assert(path_of(self.trace@, target) =~= seq![target]);
                        }
                    }
                    let ghost met = self.peers;
                    let ghost gone = self.io.asked();
                    let r = self.cross_check(target, origin, now);
                    proof {
                        lemma_drawn_transitive(peers, met, self.peers);
                        lemma_begins_transitive(self.io.asked(), gone, asked);
                        if !undecided_at(start, target, peers.primary) {
                            lemma_begins_transitive(self.io.asked(), gone, asked.push(request));
                        }
                        if r is Ok && self.store@[target].1 == VerificationStatus::Trusted {
                            lemma_evolves_no_new_seed(start, self.store@, target);
                        }
                    }
                    return r;
                },
                Err(Halt::Failed(e)) => {
                    proof {
                        lemma_evolves_transitive(start, here, self.store@);
                    }
                    return Err(e);
                },
                Err(Halt::PrimaryFailed) => {
                    proof {
                        lemma_evolves_transitive(start, here, self.store@);
                    }
                    let ghost left = self.store@;
                    let ghost met = self.peers;
                    let done = self.replace_primary();
                    proof {
                        let store = self.store@;
                        let now_peers = self.peers;
                        assert forall|p: PeerId|
                            p != peers.primary && !peers.witnesses@.contains(p) && #[trigger] cleared(
                                start,
                                p,
                            ) implies cleared(store, p) by {
                            lemma_without_clears(left, met.primary, p);
                        }
                        lemma_without_clears(left, met.primary, met.primary);
                        if done {
                            assert forall|p: PeerId| #[trigger]
                                passed_to(peers, k + 1, p) implies cleared(store, p) by {
                                lemma_replaced_once(peers, k, met, now_peers, p);
                                lemma_without_clears(left, met.primary, p);
                            }
                            lemma_replaced_once(peers, k, met, now_peers, met.primary);
                            k = k + 1;
                        } else {
                            assert forall|p: PeerId| #[trigger]
                                passed_over(peers, now_peers.primary, p) implies cleared(
                                store,
                                p,
                            ) by {
                                lemma_passed(peers, k, met, p);
                                lemma_without_clears(left, met.primary, p);
                            }
                        }
                        lemma_evolves_transitive(start, left, self.store@);
                        lemma_drawn_transitive(peers, met, self.peers);
                        lemma_traced_settled(
                            self.verifier,
                            self.options,
                            left,
                            self.store@,
                            origin,
                            target,
                            path_of(self.trace@, target),
                        );
                    }
                    proof {
                        first = false;
                    }
                    if !done {
                        return Err(Error::NoPrimary);
                    }
                },
            }
        }
    }

    /// Advances the trusted state to `target`, at the time the clock gives.
    /// See [`Self::verify_to_target_at`].
    pub fn verify_to_target(&mut self, target: Height) -> (r: Result<LightBlock, Error>)
        requires
            old(self).inv(),
        ensures
            final(self).inv(),
            final(self).same_setup(old(self)),
            evolves(old(self).store@, final(self).store@),
            drawn_from(old(self).peers, final(self).peers),
            begins_with(final(self).io.asked(), old(self).io.asked()),
            final(self).rid_of_replaced(old(self)),
            final(self).nothing_for_strangers(old(self)),
            r matches Err(Error::NoPrimary) ==> cleared(final(self).store@, final(self).peers.primary),
            exists|now: Time| #[trigger] final(self).outcome(old(self), target, now, r),
            none_with(
                old(self).store@,
                VerificationStatus::Trusted,
                VerificationStatus::Verified,
            ) <==> r matches Err(Error::NoInitialTrustedState),
            r matches Err(Error::TrustedStateExpired { trusted_time, trusting_period, now })
                ==> old(self).expired_at(trusted_time, trusting_period, now),
            (target <= latest(old(self).store@) && old(self).store@.dom().contains(target) && old(self).store@[target].1.trustworthy()) ==> (r is Ok || (r matches Err(e)
                && e is TrustedStateExpired)),
            r matches Ok(block) ==> reached(final(self).store@, target, block@),
            r matches Ok(block) ==> final(self).store@[target].1 == VerificationStatus::Verified
                || (old(self).store@.dom().contains(target) && old(self).store@[target] == (
                block@,
                VerificationStatus::Trusted,
            )),
    {
        let now = self.clock.now();
        let r = self.verify_to_target_at(target, now);
        proof {
            assert(self.outcome(old(self), target, now, r));
            if !none_with(
                old(self).store@,
                VerificationStatus::Trusted,
                VerificationStatus::Verified,
            ) {
                old(self).store.lemma_filed_by_height();
            }
        }
        r
    }

    /// Drops what the primary left undecided and lets the first witness take
    /// its place; tells whether there was a witness to do so.
    fn replace_primary(&mut self) -> (done: bool)
        requires
            old(self).inv(),
        ensures
            final(self).inv(),
            final(self).same_setup(old(self)),
            final(self).clock == old(self).clock,
            final(self).io == old(self).io,
            final(self).trace == old(self).trace,
            settled(old(self).store@, final(self).store@),
            evolves(old(self).store@, final(self).store@),
            final(self).store@ == without_unverified_from(old(self).store@, old(self).peers.primary),
            drawn_from(old(self).peers, final(self).peers),
            done ==> final(self).peers.witnesses@.len() < old(self).peers.witnesses@.len(),
            done ==> old(self).peers.witnesses@.len() > 0 && final(self).peers.primary == old(self).peers.witnesses@[0] && final(self).peers.witnesses@ == old(self).peers.witnesses@.remove(0),
            !done ==> final(self).peers.witnesses@.len() == 0 && final(self).peers == old(self).peers,
    {
        let ghost before = self.store@;
        let failed = self.peers.primary;
        self.store.remove_unverified_from(&failed);
        proof {
            assert(settled(before, self.store@)) by {
                reveal(settled);
            }
            lemma_settled_evolves(self.verifier, self.options, before, self.store@);
        }
        self.peers.replace_primary().is_some()
    }

    /// The client `self` is what `before` has become by replacing primaries
    /// that failed: the configuration, the services, the clock and the trace
    /// are the same, the peers are drawn from those that were, and no block
    /// that is verified or the seed has gone, changed or come.
    pub open spec fn handed_over(&self, before: &Self) -> bool {
        &&& self.inv()
        &&& self.same_setup(before)
        &&& self.clock == before.clock
        &&& self.trace == before.trace
        &&& drawn_from(before.peers, self.peers)
        &&& settled(before.store@, self.store@)
    }

    /// Advances the trusted state to the height the primary reports as its
    /// latest. A primary that does not report is replaced like one that fails
    /// to supply a block; when none is left to report, the call fails. What the
    /// call comes to otherwise is what [`Self::verify_to_target`] comes to for
    /// the height that was reported.
    pub fn verify_to_highest(&mut self) -> (r: Result<LightBlock, Error>)
        requires
            old(self).inv(),
        ensures
            final(self).inv(),
            final(self).same_setup(old(self)),
            evolves(old(self).store@, final(self).store@),
            drawn_from(old(self).peers, final(self).peers),
            (r matches Err(Error::NoPrimary) && final(self).peers.witnesses@.len() == 0 && final(self).handed_over(old(self))) || exists|asked: Self, target: Height, now: Time|
                asked.handed_over(old(self)) && #[trigger] final(self).outcome(
                    &asked,
                    target,
                    now,
                    r,
                ),
            r matches Ok(block) ==> reached(final(self).store@, block@.height(), block@),
            r matches Err(Error::NoPrimary) ==> final(self).peers.witnesses@.len() == 0,
            begins_with(
                final(self).io.asked(),
                old(self).io.asked().push(Request::Status { peer: old(self).peers.primary }),
            ),
            final(self).rid_of_replaced(old(self)),
            final(self).nothing_for_strangers(old(self)),
            r matches Err(Error::NoPrimary) ==> cleared(final(self).store@, final(self).peers.primary),
    {
        let ghost start = self.store@;
        let ghost peers = self.peers;
        let ghost asked = self.io.asked();
        let ghost request = Request::Status { peer: self.peers.primary };
        let ghost mut first = true;
        let ghost mut k: int = 0;
        proof {
            lemma_evolves_same(start);
            lemma_settled_same(start);
            assert(self.peers.witnesses@.skip(0) =~= self.peers.witnesses@);
        }
        loop
            invariant
                self.inv(),
                self.same_setup(old(self)),
                self.clock == old(self).clock,
                self.trace == old(self).trace,
                start == old(self).store@,
                peers == old(self).peers,
                evolves(start, self.store@),
                settled(start, self.store@),
                drawn_from(peers, self.peers),
                asked == old(self).io.asked(),
                request == (Request::Status { peer: peers.primary }),
                peers.wf(),
                replaced(peers, k, self.peers),
                forall|p: PeerId| #[trigger] passed_to(peers, k, p) ==> cleared(self.store@, p),
                forall|p: PeerId|
                    p != peers.primary && !peers.witnesses@.contains(p) && #[trigger] cleared(
                        start,
                        p,
                    ) ==> cleared(self.store@, p),
                first ==> self.io == old(self).io && self.peers == peers,
                !first ==> begins_with(self.io.asked(), asked.push(request)),
            decreases self.peers.witnesses@.len(),
        {
            let ghost here = self.store@;
            let ghost met = self.peers;
            let ghost so_far = self.io.asked();
            let primary = self.peers.primary;
            let report = self.io.fetch_status(primary);
            proof {
                lemma_begins_push(so_far, Request::Status { peer: primary });
                if !first {
                    lemma_begins_transitive(self.io.asked(), so_far, asked.push(request));
                }
                first = false;
            }
            match report {
                Ok(status) => {
                    let ghost asked_state = *self;
                    let ghost gone = self.io.asked();
                    let r = self.verify_to_target(status.latest_height);
                    proof {
                        lemma_begins_transitive(self.io.asked(), gone, asked.push(request));
                        lemma_evolves_transitive(start, here, self.store@);
                        lemma_drawn_transitive(peers, met, self.peers);
                        let now = choose|now: Time| #[trigger]
                            self.outcome(&asked_state, status.latest_height, now, r);
                        assert(asked_state.handed_over(old(self)));
                        assert(self.outcome(&asked_state, status.latest_height, now, r));
                        let store = self.store@;
                        let primary = self.peers.primary;
                        assert forall|p: PeerId| #[trigger]
                            passed_over(peers, primary, p) implies cleared(store, p) by {
                            lemma_passed_in_two(peers, k, met, primary, p);
                            if passed_to(peers, k, p) {
                                lemma_passed(peers, k, met, p);
                                assert(cleared(asked_state.store@, p));
                            } else {
                                assert(passed_over(asked_state.peers, primary, p));
                            }
                        }
                        assert forall|p: PeerId|
                            p != peers.primary && !peers.witnesses@.contains(p) && #[trigger] cleared(
                                start,
                                p,
                            ) implies cleared(store, p) by {
                            assert(cleared(asked_state.store@, p));
                            if met.witnesses@.contains(p) {
                                let a = choose|a: int|
                                    0 <= a < met.witnesses@.len() && met.witnesses@[a] == p;
                                assert(peers.witnesses@[a + k] == p);
                            }
                            if k > 0 {
                                assert(peers.witnesses@.contains(peers.witnesses@[k - 1]));
                            }
                        }
                    }
                    return r;
                },
                Err(_) => {
                    let done = self.replace_primary();
                    proof {
                        let store = self.store@;
                        let now_peers = self.peers;
                        assert forall|p: PeerId|
                            p != peers.primary && !peers.witnesses@.contains(p) && #[trigger] cleared(
                                start,
                                p,
                            ) implies cleared(store, p) by {
                            lemma_without_clears(here, met.primary, p);
                        }
                        lemma_without_clears(here, met.primary, met.primary);
                        if done {
                            assert forall|p: PeerId| #[trigger]
                                passed_to(peers, k + 1, p) implies cleared(store, p) by {
                                lemma_replaced_once(peers, k, met, now_peers, p);
                                lemma_without_clears(here, met.primary, p);
                            }
                            lemma_replaced_once(peers, k, met, now_peers, met.primary);
                            k = k + 1;
                        } else {
                            assert forall|p: PeerId| #[trigger]
                                passed_over(peers, now_peers.primary, p) implies cleared(
                                store,
                                p,
                            ) by {
                                lemma_passed(peers, k, met, p);
                                lemma_without_clears(here, met.primary, p);
                            }
                        }
                        lemma_evolves_transitive(start, here, self.store@);
                        lemma_settled_transitive(start, here, self.store@);
                        lemma_drawn_transitive(peers, met, self.peers);
                    }
                    if !done {
                        return Err(Error::NoPrimary);
                    }
                },
            }
        }
    }
}

} // verus!
