//! The data the light client reasons about: identifiers, time, validators,
//! headers, commits and light blocks, each with its mathematical view.

use vstd::prelude::*;

verus! {

/// Identifier of a block: positive and strictly increasing along the chain.
pub type Height = u64;

/// Compares two byte arrays of the same width.
pub fn bytes_equal<const N: usize>(a: &[u8; N], b: &[u8; N]) -> (r: bool)
    ensures
        r == (*a == *b),
{
    let mut i: usize = 0;
    while i < N
        invariant
            i <= N,
            forall|j: int| 0 <= j < i ==> a@[j] == b@[j],
        decreases N - i,
    {
        if a[i] != b[i] {
            return false;
        }
        i = i + 1;
    }
    assert(a =~= b);
    true
}

/// Digest of a header or of a validator set. Only equality is ever used.
#[derive(Clone, Copy, Debug, PartialEq, Eq)]
pub struct Digest {
    pub bytes: [u8; 32],
}

impl Digest {
    pub fn same(&self, other: &Digest) -> (r: bool)
        ensures
            r == (*self == *other),
    {
        bytes_equal(&self.bytes, &other.bytes)
    }
}

/// Address under which a validator signs.
#[derive(Clone, Copy, Debug, PartialEq, Eq)]
pub struct ValidatorAddress {
    pub bytes: [u8; 20],
}

impl ValidatorAddress {
    pub fn same(&self, other: &ValidatorAddress) -> (r: bool)
        ensures
            r == (*self == *other),
    {
        bytes_equal(&self.bytes, &other.bytes)
    }
}

/// Public key of a validator.
#[derive(Clone, Copy, Debug, PartialEq, Eq)]
pub struct PublicKey {
    pub bytes: [u8; 32],
}

impl PublicKey {
    pub fn same(&self, other: &PublicKey) -> (r: bool)
        ensures
            r == (*self == *other),
    {
        bytes_equal(&self.bytes, &other.bytes)
    }
}

/// Signature over the canonical vote of a commit.
#[derive(Clone, Copy, Debug, PartialEq, Eq)]
pub struct Signature {
    pub bytes: [u8; 64],
}

/// Identifier of a full node the client talks to.
#[derive(Clone, Copy, Debug, PartialEq, Eq)]
pub struct PeerId {
    pub bytes: [u8; 20],
}

impl PeerId {
    pub fn same(&self, other: &PeerId) -> (r: bool)
        ensures
            r == (*self == *other),
    {
        bytes_equal(&self.bytes, &other.bytes)
    }
}

/// A point on the wall clock, in nanoseconds since the Unix epoch.
#[derive(Clone, Copy, Debug, PartialEq, Eq, Structural)]
pub struct Time {
    pub nanos: u64,
}

/// A span of time in nanoseconds.
#[derive(Clone, Copy, Debug, PartialEq, Eq, Structural)]
pub struct Duration {
    pub nanos: u64,
}

impl Time {
    /// `self + span`, as a mathematical integer.
    pub open spec fn plus(self, span: Duration) -> int {
        self.nanos + span.nanos
    }

    /// Whether `self + span` lies strictly after `other`.
    pub fn plus_exceeds(&self, span: Duration, other: Time) -> (r: bool)
        ensures
            r == (self.plus(span) > other.nanos),
    {
        other.nanos < self.nanos || other.nanos - self.nanos < span.nanos
    }

    /// Whether `self` lies no later than `other + span`.
    pub fn within(&self, other: Time, span: Duration) -> (r: bool)
        ensures
            r == (self.nanos <= other.plus(span)),
    {
        self.nanos <= other.nanos || self.nanos - other.nanos <= span.nanos
    }

    /// Whether `self` lies strictly after `other`.
    pub fn after(&self, other: Time) -> (r: bool)
        ensures
            r == (self.nanos > other.nanos),
    {
        self.nanos > other.nanos
    }
}

/// A member of a validator set.
#[derive(Clone, Copy, Debug, PartialEq, Eq)]
pub struct Validator {
    pub address: ValidatorAddress,
    pub public_key: PublicKey,
    pub voting_power: u64,
}

/// The model of a validator set: its members in order.
pub type ValidatorSeq = Seq<Validator>;

/// Sum of the voting power of all members of `validators`.
pub open spec fn total_power(validators: Seq<Validator>) -> nat
    decreases validators.len(),
{
    if validators.len() == 0 {
        0
    } else {
        total_power(validators.drop_last()) + validators.last().voting_power as nat
    }
}

/// The total power of a prefix never exceeds that of the whole sequence.
pub proof fn lemma_total_power_prefix(validators: Seq<Validator>, n: int)
    requires
        0 <= n <= validators.len(),
    ensures
        total_power(validators.take(n)) <= total_power(validators),
    decreases validators.len() - n,
{
    if n == validators.len() {
        assert(validators.take(n) =~= validators);
    } else {
        lemma_total_power_prefix(validators, n + 1);
        assert(validators.take(n + 1).drop_last() =~= validators.take(n));
    }
}

/// An ordered collection of validators whose total voting power fits in 64 bits.
#[derive(Debug, PartialEq, Eq)]
pub struct ValidatorSet {
    validators: Vec<Validator>,
}

impl View for ValidatorSet {
    type V = Seq<Validator>;

    closed spec fn view(&self) -> Seq<Validator> {
        self.validators@
    }
}

impl ValidatorSet {
    #[verifier::type_invariant]
    spec fn bounded(&self) -> bool {
        total_power(self.validators@) <= u64::MAX
    }

    /// Builds a set from its members; `None` when their total power exceeds 64 bits.
    pub fn new(validators: Vec<Validator>) -> (r: Option<ValidatorSet>)
        ensures
            r is Some <==> total_power(validators@) <= u64::MAX,
            r matches Some(set) ==> set@ == validators@,
    {
        let mut sum: u64 = 0;
        let mut i: usize = 0;
        while i < validators.len()
            invariant
                i <= validators.len(),
                sum == total_power(validators@.take(i as int)),
            decreases validators.len() - i,
        {
            proof {
                assert(validators@.take(i + 1).drop_last() =~= validators@.take(i as int));
                lemma_total_power_prefix(validators@, i + 1);
            }
            match sum.checked_add(validators[i].voting_power) {
                Some(s) => {
                    sum = s;
                },
                None => {
                    return None;
                },
            }
            i = i + 1;
        }
        proof {
            assert(validators@.take(validators.len() as int) =~= validators@);
        }
        Some(ValidatorSet { validators })
    }

    /// Number of members.
    pub fn len(&self) -> (n: usize)
        ensures
            n == self@.len(),
    {
        self.validators.len()
    }

    /// The member at position `i`.
    pub fn get(&self, i: usize) -> (v: Validator)
        requires
            i < self@.len(),
        ensures
            v == self@[i as int],
    {
        self.validators[i]
    }

    /// The total voting power of the set.
    pub fn total_power(&self) -> (p: u64)
        ensures
            p == total_power(self@),
    {
        proof {
            use_type_invariant(self);
        }
        let mut sum: u64 = 0;
        let mut i: usize = 0;
        while i < self.validators.len()
            invariant
                i <= self.validators.len(),
                sum == total_power(self.validators@.take(i as int)),
                total_power(self.validators@) <= u64::MAX,
            decreases self.validators.len() - i,
        {
            proof {
                assert(self.validators@.take(i + 1).drop_last() =~= self.validators@.take(i as int));
                lemma_total_power_prefix(self.validators@, i + 1);
            }
            sum = sum + self.validators[i].voting_power;
            i = i + 1;
        }
        proof {
            assert(self.validators@.take(self.validators.len() as int) =~= self.validators@);
        }
        sum
    }
}

impl Clone for ValidatorSet {
    fn clone(&self) -> (r: Self)
        ensures
            r@ == self@,
    {
        proof {
            use_type_invariant(self);
        }
        let mut members: Vec<Validator> = Vec::new();
        let mut i: usize = 0;
        while i < self.validators.len()
            invariant
                i <= self.validators.len(),
                members@ == self.validators@.take(i as int),
            decreases self.validators.len() - i,
        {
            members.push(self.validators[i]);
            i = i + 1;
        }
        proof {
            assert(self.validators@.take(self.validators.len() as int) =~= self.validators@);
        }
        ValidatorSet { validators: members }
    }
}

/// Copies a vector of plain values.
pub fn copy_vec<T: Copy>(items: &Vec<T>) -> (r: Vec<T>)
    ensures
        r@ == items@,
{
    let mut out: Vec<T> = Vec::new();
    let mut i: usize = 0;
    while i < items.len()
        invariant
            i <= items.len(),
            out@ == items@.take(i as int),
        decreases items.len() - i,
    {
        out.push(items[i]);
        i = i + 1;
    }
    proof {
        assert(items@.take(items.len() as int) =~= items@);
    }
    out
}

/// One slot of a commit: what a validator of that height contributed.
#[derive(Clone, Copy, Debug, PartialEq, Eq)]
pub enum CommitSig {
    /// The validator did not vote.
    Absent,
    /// The validator voted for no block.
    Nil { validator: ValidatorAddress, signature: Signature },
    /// The validator voted for the block the commit identifies.
    ForBlock { validator: ValidatorAddress, signature: Signature },
}

impl CommitSig {
    /// The address the slot claims as its signer, if it carries a vote.
    pub open spec fn signer(self) -> Option<ValidatorAddress> {
        match self {
            CommitSig::Absent => None,
            CommitSig::Nil { validator, .. } => Some(validator),
            CommitSig::ForBlock { validator, .. } => Some(validator),
        }
    }

    /// The address of the signer when the slot is a vote for the block.
    pub open spec fn block_signer(self) -> Option<ValidatorAddress> {
        match self {
            CommitSig::ForBlock { validator, .. } => Some(validator),
            _ => None,
        }
    }

    pub fn signer_address(&self) -> (r: Option<ValidatorAddress>)
        ensures
            r == self.signer(),
    {
        match self {
            CommitSig::Absent => None,
            CommitSig::Nil { validator, .. } => Some(*validator),
            CommitSig::ForBlock { validator, .. } => Some(*validator),
        }
    }

    pub fn block_signer_address(&self) -> (r: Option<ValidatorAddress>)
        ensures
            r == self.block_signer(),
    {
        match self {
            CommitSig::ForBlock { validator, .. } => Some(*validator),
            _ => None,
        }
    }
}

/// What a block commits to about itself and its neighbours.
#[derive(Debug, PartialEq, Eq)]
pub struct Header {
    pub height: Height,
    pub time: Time,
    pub chain_id: String,
    pub validators_hash: Digest,
    pub next_validators_hash: Digest,
    pub last_block_hash: Digest,
}

impl Clone for Header {
    fn clone(&self) -> (r: Self)
        ensures
            r == *self,
    {
        Header {
            height: self.height,
            time: self.time,
            chain_id: self.chain_id.clone(),
            validators_hash: self.validators_hash,
            next_validators_hash: self.next_validators_hash,
            last_block_hash: self.last_block_hash,
        }
    }
}

/// The votes that finalised a block.
#[derive(Debug, PartialEq, Eq)]
pub struct Commit {
    pub height: Height,
    pub round: u32,
    pub block_id: Digest,
    pub signatures: Vec<CommitSig>,
}

/// The model of a [`Commit`].
#[verifier::ext_equal]
pub struct CommitView {
    pub height: Height,
    pub round: u32,
    pub block_id: Digest,
    pub signatures: Seq<CommitSig>,
}

impl View for Commit {
    type V = CommitView;

    open spec fn view(&self) -> CommitView {
        CommitView {
            height: self.height,
            round: self.round,
            block_id: self.block_id,
            signatures: self.signatures@,
        }
    }
}

impl Clone for Commit {
    fn clone(&self) -> (r: Self)
        ensures
            r@ == self@,
    {
        Commit {
            height: self.height,
            round: self.round,
            block_id: self.block_id,
            signatures: copy_vec(&self.signatures),
        }
    }
}

/// A header together with the commit that finalised it.
#[derive(Debug, PartialEq, Eq)]
pub struct SignedHeader {
    pub header: Header,
    pub commit: Commit,
}

/// The model of a [`SignedHeader`].
#[verifier::ext_equal]
pub struct SignedHeaderView {
    pub header: Header,
    pub commit: CommitView,
}

impl View for SignedHeader {
    type V = SignedHeaderView;

    open spec fn view(&self) -> SignedHeaderView {
        SignedHeaderView { header: self.header, commit: self.commit@ }
    }
}

impl Clone for SignedHeader {
    fn clone(&self) -> (r: Self)
        ensures
            r@ == self@,
    {
        SignedHeader { header: self.header.clone(), commit: self.commit.clone() }
    }
}

/// A signed header with the validator sets its header commits to, as one peer supplied it.
#[derive(Debug, PartialEq, Eq)]
pub struct LightBlock {
    pub signed_header: SignedHeader,
    pub validators: ValidatorSet,
    pub next_validators: ValidatorSet,
    pub provider: PeerId,
}

/// The model of a [`LightBlock`].
#[verifier::ext_equal]
pub struct LightBlockView {
    pub signed_header: SignedHeaderView,
    pub validators: Seq<Validator>,
    pub next_validators: Seq<Validator>,
    pub provider: PeerId,
}

impl LightBlockView {
    pub open spec fn height(self) -> Height {
        self.signed_header.header.height
    }

    pub open spec fn time(self) -> Time {
        self.signed_header.header.time
    }

    pub open spec fn signatures(self) -> Seq<CommitSig> {
        self.signed_header.commit.signatures
    }
}

impl View for LightBlock {
    type V = LightBlockView;

    open spec fn view(&self) -> LightBlockView {
        LightBlockView {
            signed_header: self.signed_header@,
            validators: self.validators@,
            next_validators: self.next_validators@,
            provider: self.provider,
        }
    }
}

impl Clone for LightBlock {
    fn clone(&self) -> (r: Self)
        ensures
            r@ == self@,
    {
        LightBlock {
            signed_header: self.signed_header.clone(),
            validators: self.validators.clone(),
            next_validators: self.next_validators.clone(),
            provider: self.provider,
        }
    }
}

impl LightBlock {
    /// The height of the block's header.
    pub fn height(&self) -> (h: Height)
        ensures
            h == self@.height(),
    {
        self.signed_header.header.height
    }
}

/// The fraction of trusted voting power that must have signed a block for the
/// client to skip to it. Meaningful between zero (excluded) and one (included).
#[derive(Clone, Copy, Debug, PartialEq, Eq, Structural)]
pub struct TrustThreshold {
    pub numerator: u64,
    pub denominator: u64,
}

impl TrustThreshold {
    /// Whether the fraction lies in the interval from zero (excluded) to one (included).
    pub open spec fn valid(self) -> bool {
        0 < self.numerator <= self.denominator
    }

    pub fn is_valid(&self) -> (r: bool)
        ensures
            r == self.valid(),
    {
        0 < self.numerator && self.numerator <= self.denominator
    }

    /// Whether `part` is strictly more than this fraction of `whole`.
    pub open spec fn exceeded_by(self, part: nat, whole: nat) -> bool {
        part * self.denominator > self.numerator * whole
    }

    /// Decides [`Self::exceeded_by`] in 128-bit arithmetic, which cannot overflow
    /// on 64-bit operands.
    pub fn is_exceeded_by(&self, part: u64, whole: u64) -> (r: bool)
        ensures
            r == self.exceeded_by(part as nat, whole as nat),
    {
        proof {
            lemma_product_fits(part, self.denominator);
            lemma_product_fits(self.numerator, whole);
        }
        let left: u128 = (part as u128) * (self.denominator as u128);
        let right: u128 = (self.numerator as u128) * (whole as u128);
        left > right
    }
}

/// The product of two 64-bit values fits in 128 bits.
pub proof fn lemma_product_fits(a: u64, b: u64)
    ensures
        a * b <= u128::MAX,
{
    assert(a * b <= 0xffff_ffff_ffff_ffff * 0xffff_ffff_ffff_ffff) by (nonlinear_arith)
        requires
            0 <= a <= 0xffff_ffff_ffff_ffff,
            0 <= b <= 0xffff_ffff_ffff_ffff,
    ;
}

/// How far the client got with a block it holds.
#[derive(Clone, Copy, Debug, PartialEq, Eq, Structural)]
pub enum VerificationStatus {
    /// Fetched, not yet decided.
    Unverified,
    /// Accepted by the verifier.
    Verified,
    /// Rejected for good.
    Failed,
    /// The seed the client started from.
    Trusted,
}

impl VerificationStatus {
    /// Whether trust can be extended from a block with this status.
    pub open spec fn trustworthy(self) -> bool {
        self == VerificationStatus::Verified || self == VerificationStatus::Trusted
    }

    pub fn is_trustworthy(&self) -> (r: bool)
        ensures
            r == self.trustworthy(),
    {
        match self {
            VerificationStatus::Verified => true,
            VerificationStatus::Trusted => true,
            _ => false,
        }
    }
}

} // verus!
