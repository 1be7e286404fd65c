//! Fork detection: a verified block is held against what each witness has at
//! the same height. A witness that has another block must justify it along the
//! heights the client verified; if it can, the chain has forked.

use crate::capabilities::{
    CommitValidator, HeaderHasher, Io, Request, begins_with, lemma_begins_push,
    lemma_begins_transitive,
};
use crate::errors::Error;
use crate::peers::{Peers, drawn_from};
use crate::types::{
    Duration, Height, LightBlock, LightBlockView, PeerId, SignedHeader, SignedHeaderView, Time,
    TrustThreshold,
};
use crate::verification::ProdVerifier;
use vstd::prelude::*;

verus! {

/// How a witness's block relates to the verified one.
#[derive(Clone, Copy, Debug, PartialEq, Eq, Structural)]
pub enum Comparison {
    /// The two headers have the same hash.
    Same,
    /// Same height, different hash.
    Conflicting,
    /// The witness answered with a block of another height.
    Elsewhere,
}

/// What holding the verified block against one witness brought.
#[derive(Debug, PartialEq, Eq)]
pub enum Finding {
    /// The witness has the same block.
    Agrees,
    /// The witness did not answer; it is passed over.
    Unreachable,
    /// The witness has another block and cannot justify it.
    Faulty,
    /// The witness has another block and can justify it: this is its signed
    /// header.
    Fork(SignedHeader),
}

/// The relation between the verified block and a witness's answer.
pub open spec fn comparison<H: HeaderHasher>(
    header_hasher: H,
    verified: LightBlockView,
    answer: LightBlockView,
) -> Comparison {
    if header_hasher.header_digest(answer.signed_header.header) == header_hasher.header_digest(
        verified.signed_header.header,
    ) {
        Comparison::Same
    } else if answer.height() == verified.height() {
        Comparison::Conflicting
    } else {
        Comparison::Elsewhere
    }
}

/// Holds a witness's answer against the verified block.
pub fn compare<H: HeaderHasher>(header_hasher: &H, verified: &LightBlock, answer: &LightBlock) -> (r:
    Comparison)
    ensures
        r == comparison(*header_hasher, verified@, answer@),
{
    let ours = header_hasher.hash_header(&verified.signed_header.header);
    let theirs = header_hasher.hash_header(&answer.signed_header.header);
    if theirs.same(&ours) {
        Comparison::Same
    } else if answer.height() == verified.height() {
        Comparison::Conflicting
    } else {
        Comparison::Elsewhere
    }
}

/// Whether block `k` of a witness lies at height `k` of the path, is what it
/// claims to be, and is accepted on the strength of the block before it; the
/// first block rests on the seed.
pub open spec fn link_holds<H: HeaderHasher, S: CommitValidator>(
    verifier: ProdVerifier<H, S>,
    seed: LightBlockView,
    blocks: Seq<LightBlock>,
    path: Seq<Height>,
    threshold: TrustThreshold,
    trusting_period: Duration,
    now: Time,
    k: int,
) -> bool {
    let trusted = if k == 0 {
        seed
    } else {
        blocks[k - 1]@
    };
    &&& blocks[k]@.height() == path[k]
    &&& verifier.ingest_verdict(blocks[k]@) is Ok
    &&& verifier.accepts(trusted, blocks[k]@, threshold, trusting_period, now)
}

/// Whether a witness's blocks let trust extend from the seed along the path,
/// block by block.
pub open spec fn justified<H: HeaderHasher, S: CommitValidator>(
    verifier: ProdVerifier<H, S>,
    seed: LightBlockView,
    blocks: Seq<LightBlock>,
    path: Seq<Height>,
    threshold: TrustThreshold,
    trusting_period: Duration,
    now: Time,
) -> bool {
    &&& blocks.len() == path.len()
    &&& forall|k: int|
        0 <= k < blocks.len() ==> #[trigger] link_holds(
            verifier,
            seed,
            blocks,
            path,
            threshold,
            trusting_period,
            now,
            k,
        )
}

/// Replays the path on a witness's blocks.
pub fn is_justified<H: HeaderHasher, S: CommitValidator>(
    verifier: &ProdVerifier<H, S>,
    seed: &LightBlock,
    blocks: &Vec<LightBlock>,
    path: &Vec<Height>,
    threshold: TrustThreshold,
    trusting_period: Duration,
    now: Time,
) -> (r: bool)
    ensures
        r == justified(*verifier, seed@, blocks@, path@, threshold, trusting_period, now),
{
    if blocks.len() != path.len() {
        return false;
    }
    let mut k: usize = 0;
    while k < blocks.len()
        invariant
            k <= blocks@.len(),
            blocks@.len() == path@.len(),
            forall|j: int|
                0 <= j < k ==> #[trigger] link_holds(
                    *verifier,
                    seed@,
                    blocks@,
                    path@,
                    threshold,
                    trusting_period,
                    now,
                    j,
                ),
        decreases blocks@.len() - k,
    {
        let block = &blocks[k];
        let trusted = if k == 0 {
            seed
        } else {
            &blocks[k - 1]
        };
        let holds = block.height() == path[k] && verifier.inspect(block).is_ok()
            && verifier.verify(trusted, block, threshold, trusting_period, now).is_ok();
        if !holds {
            assert(!link_holds(
                *verifier,
                seed@,
                blocks@,
                path@,
                threshold,
                trusting_period,
                now,
                k as int,
            ));
            return false;
        }
        k = k + 1;
    }
    true
}

/// A finding of a fork is backed by blocks of the witness that let trust extend
/// from the seed along the path and end in the conflicting header.
pub open spec fn backed<H: HeaderHasher, S: CommitValidator>(
    verifier: ProdVerifier<H, S>,
    verified: LightBlockView,
    seed: LightBlockView,
    path: Seq<Height>,
    threshold: TrustThreshold,
    trusting_period: Duration,
    now: Time,
    finding: Finding,
) -> bool {
    finding matches Finding::Fork(header) ==> {
        &&& header@.header.height == verified.height()
        &&& verifier.header_hasher.header_digest(header@.header) != verifier.header_hasher.header_digest(
            verified.signed_header.header,
        )
        &&& exists|blocks: Seq<LightBlock>|
            blocks.len() > 0 && blocks.last()@.signed_header == header@ && #[trigger] justified(
                verifier,
                seed,
                blocks,
                path,
                threshold,
                trusting_period,
                now,
            )
    }
}

/// The model of a [`Finding`].
#[verifier::ext_equal]
pub enum FindingView {
    Agrees,
    Unreachable,
    Faulty,
    Fork(SignedHeaderView),
}

impl View for Finding {
    type V = FindingView;

    open spec fn view(&self) -> FindingView {
        match *self {
            Finding::Agrees => FindingView::Agrees,
            Finding::Unreachable => FindingView::Unreachable,
            Finding::Faulty => FindingView::Faulty,
            Finding::Fork(header) => FindingView::Fork(header@),
        }
    }
}

/// What follows from the blocks a witness answered with, the last of them
/// being its block at the height of the verified one. Without any block the
/// witness counts as unreachable. A last block with the same header hash as
/// the verified one means agreement, whatever came before it. A last block at
/// another height cannot be justified. A last block that conflicts makes a
/// fork if the blocks let trust extend from the seed along the path, and a
/// faulty witness if they do not.
pub open spec fn conclusion<H: HeaderHasher, S: CommitValidator>(
    verifier: ProdVerifier<H, S>,
    verified: LightBlockView,
    seed: LightBlockView,
    path: Seq<Height>,
    blocks: Seq<LightBlock>,
    threshold: TrustThreshold,
    trusting_period: Duration,
    now: Time,
) -> FindingView {
    if blocks.len() == 0 {
        FindingView::Unreachable
    } else {
        match comparison(verifier.header_hasher, verified, blocks.last()@) {
            Comparison::Same => FindingView::Agrees,
            Comparison::Elsewhere => FindingView::Faulty,
            Comparison::Conflicting => if justified(
                verifier,
                seed,
                blocks,
                path,
                threshold,
                trusting_period,
                now,
            ) {
                FindingView::Fork(blocks.last()@.signed_header)
            } else {
                FindingView::Faulty
            },
        }
    }
}

/// Draws the conclusion from the blocks a witness answered with.
pub fn conclude<H: HeaderHasher, S: CommitValidator>(
    verifier: &ProdVerifier<H, S>,
    verified: &LightBlock,
    seed: &LightBlock,
    path: &Vec<Height>,
    blocks: &Vec<LightBlock>,
    threshold: TrustThreshold,
    trusting_period: Duration,
    now: Time,
) -> (finding: Finding)
    ensures
        finding@ == conclusion(
            *verifier,
            verified@,
            seed@,
            path@,
            blocks@,
            threshold,
            trusting_period,
            now,
        ),
{
    if blocks.len() == 0 {
        return Finding::Unreachable;
    }
    let answer = &blocks[blocks.len() - 1];
    match compare(&verifier.header_hasher, verified, answer) {
        Comparison::Same => Finding::Agrees,
        Comparison::Elsewhere => Finding::Faulty,
        Comparison::Conflicting => {
            if is_justified(verifier, seed, blocks, path, threshold, trusting_period, now) {
                Finding::Fork(answer.signed_header.clone())
            } else {
                Finding::Faulty
            }
        },
    }
}

/// Holds the verified block against `witness`. The witness is asked for its
/// block at the same height; if that conflicts, it is first asked for its
/// blocks at the heights of `path` before the last. The finding is the
/// conclusion from the blocks it answered with; a witness that fails to answer
/// once is unreachable.
///
/// What the witness answers is not known beforehand: the finding is promised
/// to be the conclusion from some blocks, and a fork is never found without
/// the blocks that back it.
pub fn examine_witness<H: HeaderHasher, S: CommitValidator, I: Io>(
    verifier: &ProdVerifier<H, S>,
    io: &mut I,
    witness: PeerId,
    verified: &LightBlock,
    seed: &LightBlock,
    path: &Vec<Height>,
    threshold: TrustThreshold,
    trusting_period: Duration,
    now: Time,
) -> (finding: Finding)
    ensures
        exists|blocks: Seq<LightBlock>|
            finding@ == #[trigger] conclusion(
                *verifier,
                verified@,
                seed@,
                path@,
                blocks,
                threshold,
                trusting_period,
                now,
            ),
        backed(*verifier, verified@, seed@, path@, threshold, trusting_period, now, finding),
        begins_with(
            final(io).asked(),
            old(io).asked().push(Request::LightBlock { peer: witness, height: verified@.height() }),
        ),
{
    let ghost none = Seq::<LightBlock>::empty();
    let ghost first = io.asked().push(
        Request::LightBlock { peer: witness, height: verified@.height() },
    );
    assert(conclusion(*verifier, verified@, seed@, path@, none, threshold, trusting_period, now)
        == FindingView::Unreachable);
    let answer = match io.fetch_light_block(witness, verified.height()) {
        Ok(block) => block,
        Err(_) => {
            return Finding::Unreachable;
        },
    };
    let mut blocks: Vec<LightBlock> = Vec::new();
    match compare(&verifier.header_hasher, verified, &answer) {
        Comparison::Conflicting => {
            let ahead: usize = if path.len() == 0 {
                0
            } else {
                path.len() - 1
            };
            let mut k: usize = 0;
            proof {
                lemma_begins_push(first, first[0]);
            }
            while k < ahead
                invariant
                    first == old(io).asked().push(
                        Request::LightBlock { peer: witness, height: verified@.height() },
                    ),
                    begins_with(io.asked(), first),
                    k <= ahead,
                    ahead < path@.len() || ahead == 0,
                    blocks@.len() == k,
                    conclusion(
                        *verifier,
                        verified@,
                        seed@,
                        path@,
                        none,
                        threshold,
                        trusting_period,
                        now,
                    ) == FindingView::Unreachable,
                decreases ahead - k,
            {
                let ghost so_far = io.asked();
                let answer = io.fetch_light_block(witness, path[k]);
                proof {
                    lemma_begins_push(
                        so_far,
                        Request::LightBlock { peer: witness, height: path@[k as int] },
                    );
                    lemma_begins_transitive(io.asked(), so_far, first);
                }
                match answer {
                    Ok(block) => {
                        blocks.push(block);
                    },
                    Err(_) => {
                        return Finding::Unreachable;
                    },
                }
                k = k + 1;
            }
        },
        _ => {},
    }
    blocks.push(answer);
    let finding = conclude(
        verifier,
        verified,
        seed,
        path,
        &blocks,
        threshold,
        trusting_period,
        now,
    );
    proof {
        if finding is Fork {
            assert(justified(
                *verifier,
                seed@,
                blocks@,
                path@,
                threshold,
                trusting_period,
                now,
            ));
        }
    }
    finding
}

/// Whether some finding calls `peer` faulty.
pub open spec fn called_faulty(findings: Seq<(PeerId, Finding)>, peer: PeerId) -> bool {
    exists|i: int|
        0 <= i < findings.len() && (#[trigger] findings[i]).0 == peer && findings[i].1 is Faulty
}

/// The position of the first finding of a fork.
pub open spec fn first_fork(findings: Seq<(PeerId, Finding)>) -> Option<int>
    decreases findings.len(),
{
    if findings.len() == 0 {
        None
    } else {
        match first_fork(findings.drop_last()) {
            Some(i) => Some(i),
            None => if findings.last().1 is Fork {
                Some(findings.len() - 1)
            } else {
                None
            },
        }
    }
}

/// The position of the last finding of a faulty witness.
pub open spec fn last_faulty(findings: Seq<(PeerId, Finding)>) -> Option<int>
    decreases findings.len(),
{
    if findings.len() == 0 {
        None
    } else if findings.last().1 is Faulty {
        Some(findings.len() - 1)
    } else {
        last_faulty(findings.drop_last())
    }
}

/// `first_fork` is the least position of a fork, and `None` where no finding
/// is a fork.
pub proof fn lemma_first_fork(findings: Seq<(PeerId, Finding)>)
    ensures
        match first_fork(findings) {
            Some(i) => {
                &&& 0 <= i < findings.len()
                &&& findings[i].1 is Fork
                &&& forall|j: int| 0 <= j < i ==> !((#[trigger] findings[j]).1 is Fork)
            },
            None => forall|j: int| 0 <= j < findings.len() ==> !((#[trigger] findings[j]).1 is Fork),
        },
    decreases findings.len(),
{
    if findings.len() > 0 {
        let front = findings.drop_last();
        lemma_first_fork(front);
        assert(forall|j: int| 0 <= j < front.len() ==> front[j] == findings[j]);
    }
}

/// `last_faulty` is the greatest position of a faulty witness, and `None`
/// where no finding calls a witness faulty.
pub proof fn lemma_last_faulty(findings: Seq<(PeerId, Finding)>)
    ensures
        match last_faulty(findings) {
            Some(i) => {
                &&& 0 <= i < findings.len()
                &&& findings[i].1 is Faulty
                &&& forall|j: int| i < j < findings.len() ==> !((#[trigger] findings[j]).1 is Faulty)
            },
            None => forall|j: int|
                0 <= j < findings.len() ==> !((#[trigger] findings[j]).1 is Faulty),
        },
    decreases findings.len(),
{
    if findings.len() > 0 {
        let front = findings.drop_last();
        lemma_last_faulty(front);
        assert(forall|j: int| 0 <= j < front.len() ==> front[j] == findings[j]);
    }
}

/// One more finding calls one more peer faulty, or none.
proof fn lemma_called_faulty_step(findings: Seq<(PeerId, Finding)>, i: int, peer: PeerId)
    requires
        0 <= i < findings.len(),
    ensures
        called_faulty(findings.take(i + 1), peer) <==> called_faulty(findings.take(i), peer) || (
        findings[i].0 == peer && findings[i].1 is Faulty),
{
    let shorter = findings.take(i);
    let longer = findings.take(i + 1);
    if called_faulty(shorter, peer) {
        let k = choose|k: int|
            0 <= k < shorter.len() && (#[trigger] shorter[k]).0 == peer && shorter[k].1 is Faulty;
        assert(longer[k] == shorter[k]);
    }
    if findings[i].0 == peer && findings[i].1 is Faulty {
        assert(longer[i] == findings[i]);
    }
    if called_faulty(longer, peer) {
        let k = choose|k: int|
            0 <= k < longer.len() && (#[trigger] longer[k]).0 == peer && longer[k].1 is Faulty;
        if k < i {
            assert(shorter[k] == longer[k]);
        } else {
            assert(longer[k] == findings[i]);
        }
    }
}

/// Settles what the witnesses brought. Every witness that a finding calls
/// faulty is dropped. The first fork, in the order of the findings, is
/// reported with the verified block beside it. Where there is none, and a
/// witness was found faulty, and no witness is left, the last witness found
/// faulty is reported. Otherwise the verified block is returned.
pub fn settle(peers: &mut Peers, verified: LightBlock, findings: &Vec<(PeerId, Finding)>) -> (r:
    Result<LightBlock, Error>)
    requires
        old(peers).wf(),
    ensures
        final(peers).wf(),
        final(peers).primary == old(peers).primary,
        forall|p: PeerId| #[trigger]
            final(peers).witnesses@.contains(p) <==> old(peers).witnesses@.contains(p)
                && !called_faulty(findings@, p),
        drawn_from(*old(peers), *final(peers)),
        last_faulty(findings@) is None ==> *final(peers) == *old(peers),
        match first_fork(findings@) {
            Some(i) => r matches Err(Error::ForkDetected { primary, witness, witness_id })
                && primary == verified && witness_id == findings@[i].0 && findings@[i].1@
                == FindingView::Fork(witness@),
            None => match last_faulty(findings@) {
                Some(j) => if final(peers).witnesses@.len() == 0 {
                    r == Err::<LightBlock, Error>(
                        Error::FaultyWitness { witness_id: findings@[j].0 },
                    )
                } else {
                    r == Ok::<LightBlock, Error>(verified)
                },
                None => r == Ok::<LightBlock, Error>(verified),
            },
        },
{
    let mut evidence: Option<(SignedHeader, PeerId)> = None;
    let mut dropped: Option<PeerId> = None;
    let mut i: usize = 0;
    assert(findings@.take(0) =~= Seq::<(PeerId, Finding)>::empty());
    while i < findings.len()
        invariant
            i <= findings@.len(),
            peers.wf(),
            peers.primary == old(peers).primary,
            forall|p: PeerId| #[trigger]
                peers.witnesses@.contains(p) <==> old(peers).witnesses@.contains(p)
                    && !called_faulty(findings@.take(i as int), p),
            match first_fork(findings@.take(i as int)) {
                Some(k) => evidence matches Some((header, witness)) && 0 <= k < i && witness
                    == findings@[k].0 && findings@[k].1@ == FindingView::Fork(header@),
                None => evidence is None,
            },
            match last_faulty(findings@.take(i as int)) {
                Some(j) => 0 <= j < i && dropped == Some(findings@[j].0),
                None => dropped is None && *peers == *old(peers),
            },
        decreases findings@.len() - i,
    {
        let ghost sooner = findings@.take(i as int);
        let ghost later = findings@.take(i + 1);
        let ghost held = peers.witnesses@;
        proof {
            assert(later.drop_last() =~= sooner);
            assert(later.last() == findings@[i as int]);
            lemma_first_fork(sooner);
            lemma_last_faulty(sooner);
            assert forall|k: int| 0 <= k < sooner.len() implies sooner[k] == findings@[k] by {}
        }
        let entry = &findings[i];
        let witness = entry.0;
        match &entry.1 {
            Finding::Faulty => {
                peers.remove_witness(&witness);
                dropped = Some(witness);
            },
            Finding::Fork(header) => {
                if evidence.is_none() {
                    evidence = Some((header.clone(), witness));
                }
            },
            _ => {},
        }
        proof {
            assert forall|p: PeerId| #[trigger]
                peers.witnesses@.contains(p) <==> old(peers).witnesses@.contains(p)
                    && !called_faulty(later, p) by {
                lemma_called_faulty_step(findings@, i as int, p);
                assert(held.contains(p) <==> old(peers).witnesses@.contains(p) && !called_faulty(
                    sooner,
                    p,
                ));
            }
        }
        i = i + 1;
    }
    proof {
        assert(findings@.take(findings@.len() as int) =~= findings@);
        assert forall|p: PeerId| #[trigger]
            peers.witnesses@.contains(p) implies old(peers).witnesses@.contains(p) by {}
    }
    match evidence {
        Some((header, witness)) => Err(
            Error::ForkDetected { primary: verified, witness: header, witness_id: witness },
        ),
        None => match dropped {
            Some(witness) => {
                if peers.witnesses.len() == 0 {
                    Err(Error::FaultyWitness { witness_id: witness })
                } else {
                    Ok(verified)
                }
            },
            None => Ok(verified),
        },
    }
}

} // verus!
