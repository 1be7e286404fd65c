//! What the client consumes from its surroundings: hashing, signature
//! verification, the clock and the peers. Each is a small trait, so that a
//! deployment plugs in real services and a test plugs in fakes.

use crate::types::{
    Digest, Header, Height, LightBlock, PeerId, PublicKey, SignedHeader, SignedHeaderView, Time,
    ValidatorSeq, ValidatorSet,
};
use vstd::prelude::*;

verus! {

/// Computes the chain's digests. A digest depends on the hashed value alone:
/// `header_digest` and `validators_digest` name it, and an implementation
/// promises to return exactly that.
pub trait HeaderHasher {
    /// The digest of `header`.
    spec fn header_digest(&self, header: Header) -> Digest;

    /// The digest that commits to the members of a validator set, in order.
    spec fn validators_digest(&self, validators: ValidatorSeq) -> Digest;

    fn hash_header(&self, header: &Header) -> (h: Digest)
        ensures
            h == self.header_digest(*header),
    ;

    fn hash_validators(&self, validators: &ValidatorSet) -> (h: Digest)
        ensures
            h == self.validators_digest(validators@),
    ;
}

/// Validates the votes of a commit, one at a time: it decides whether a vote is
/// validly signed. The answer depends on the key, the signed header and the
/// slot alone: `vouches` names it.
pub trait CommitValidator {
    /// Whether slot `index` of the commit of `signed_header` holds a signature,
    /// valid under `public_key`, over the canonical vote for the block the
    /// commit identifies.
    spec fn vouches(&self, public_key: PublicKey, signed_header: SignedHeaderView, index: usize) -> bool;

    fn validate_vote(&self, public_key: &PublicKey, signed_header: &SignedHeader, index: usize) -> (ok: bool)
        requires
            index < signed_header@.commit.signatures.len(),
        ensures
            ok == self.vouches(*public_key, signed_header@, index),
    ;
}

/// Why a request to a peer brought no usable answer.
#[derive(Clone, Copy, Debug, PartialEq, Eq, Structural)]
pub enum IoCause {
    /// The peer did not answer in time.
    Timeout,
    /// The peer could not be reached or the transport failed.
    Unreachable,
    /// The peer answered with something that is no light block.
    Malformed,
}

/// A failed request to a peer.
#[derive(Clone, Copy, Debug, PartialEq, Eq)]
pub struct IoError {
    pub peer: PeerId,
    pub cause: IoCause,
}

/// What a peer reports about the head of its chain.
#[derive(Clone, Copy, Debug, PartialEq, Eq)]
pub struct PeerStatus {
    pub latest_height: Height,
    pub latest_block_hash: Digest,
}

/// What was asked of a peer.
#[derive(Clone, Copy, Debug, PartialEq, Eq)]
pub enum Request {
    /// The light block at a height; height zero stands for the latest.
    LightBlock { peer: PeerId, height: Height },
    /// The head of the peer's chain.
    Status { peer: PeerId },
}

/// The requests made so far, in order.
pub type Requests = Seq<Request>;

/// `longer` begins with `shorter`.
pub open spec fn begins_with(longer: Seq<Request>, shorter: Seq<Request>) -> bool {
    &&& shorter.len() <= longer.len()
    &&& forall|i: int| 0 <= i < shorter.len() ==> longer[i] == shorter[i]
}

/// A sequence that begins with a second, which begins with a third, begins
/// with the third.
pub proof fn lemma_begins_transitive(
    longest: Seq<Request>,
    longer: Seq<Request>,
    shorter: Seq<Request>,
)
    requires
        begins_with(longest, longer),
        begins_with(longer, shorter),
    ensures
        begins_with(longest, shorter),
{
}

/// A sequence with one request more begins with what it was.
pub proof fn lemma_begins_push(requests: Seq<Request>, request: Request)
    ensures
        begins_with(requests.push(request), requests),
        begins_with(requests, requests),
{
}

/// Talks to peers, and keeps account of what it asked: `asked` is that account,
/// and every request adds one entry to it. Nothing is promised about what a
/// peer answers: the client inspects every block it is handed.
pub trait Io {
    /// The requests made so far, in order.
    spec fn asked(&self) -> Requests;

    /// Asks `peer` for its light block at `height`; height zero asks for the latest.
    fn fetch_light_block(&mut self, peer: PeerId, height: Height) -> (r: Result<
        LightBlock,
        IoError,
    >)
        ensures
            final(self).asked() == old(self).asked().push(Request::LightBlock { peer, height }),
    ;

    /// Asks `peer` for the head of its chain.
    fn fetch_status(&mut self, peer: PeerId) -> (r: Result<PeerStatus, IoError>)
        ensures
            final(self).asked() == old(self).asked().push(Request::Status { peer }),
    ;
}

/// Tells the time.
pub trait Clock {
    fn now(&self) -> (t: Time);
}

} // verus!
