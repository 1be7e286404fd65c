//! How much voting power stands behind a commit.

use crate::types::{
    CommitSig, LightBlock, LightBlockView, TrustThreshold, Validator, ValidatorAddress,
    ValidatorSet, lemma_total_power_prefix, total_power,
};
use vstd::prelude::*;

verus! {

/// The position of the first member of `validators` that signs under `address`.
pub open spec fn find_validator(validators: Seq<Validator>, address: ValidatorAddress) -> Option<int>
    decreases validators.len(),
{
    if validators.len() == 0 {
        None
    } else {
        match find_validator(validators.drop_last(), address) {
            Some(i) => Some(i),
            None => if validators.last().address == address {
                Some(validators.len() - 1)
            } else {
                None
            },
        }
    }
}

/// `find_validator` returns the least position that holds the address, and
/// `None` exactly when no position does.
pub proof fn lemma_find_validator(validators: Seq<Validator>, address: ValidatorAddress)
    ensures
        match find_validator(validators, address) {
            Some(i) => {
                &&& 0 <= i < validators.len()
                &&& validators[i].address == address
                &&& forall|j: int| 0 <= j < i ==> (#[trigger] validators[j]).address != address
            },
            None => forall|j: int|
                0 <= j < validators.len() ==> (#[trigger] validators[j]).address != address,
        },
    decreases validators.len(),
{
    if validators.len() > 0 {
        let front = validators.drop_last();
        lemma_find_validator(front, address);
        assert(forall|j: int| 0 <= j < front.len() ==> front[j] == validators[j]);
    }
}

/// Looks a member up by its address.
pub fn locate(validators: &ValidatorSet, address: &ValidatorAddress) -> (r: Option<usize>)
    ensures
        match r {
            Some(i) => i < validators@.len() && find_validator(validators@, *address) == Some(
                i as int,
            ),
            None => find_validator(validators@, *address) is None,
        },
{
    let n = validators.len();
    let mut i: usize = 0;
    while i < n
        invariant
            i <= n,
            n == validators@.len(),
            forall|j: int| 0 <= j < i ==> (#[trigger] validators@[j]).address != *address,
        decreases n - i,
    {
        if validators.get(i).address.same(address) {
            proof {
                lemma_find_validator(validators@, *address);
            }
            return Some(i);
        }
        i = i + 1;
    }
    proof {
        lemma_find_validator(validators@, *address);
    }
    None
}

/// Whether `validators` lists `member`'s address with `member`'s key.
pub open spec fn lists_key(validators: Seq<Validator>, member: Validator) -> bool {
    match find_validator(validators, member.address) {
        Some(j) => validators[j].public_key == member.public_key,
        None => false,
    }
}

/// Whether some slot holds a vote for the block by `address` that was found valid.
pub open spec fn has_valid_vote(
    signatures: Seq<CommitSig>,
    valid: Seq<bool>,
    address: ValidatorAddress,
) -> bool {
    exists|i: int|
        #![trigger signatures[i]]
        0 <= i < signatures.len() && i < valid.len() && valid[i] && signatures[i].block_signer()
            == Some(address)
}

/// Whether `member` stands behind the commit of `candidate`: the block's own
/// validator set lists the member's address with the member's key, and the
/// commit holds a valid vote for the block under that address.
pub open spec fn endorsed(member: Validator, candidate: LightBlockView, valid: Seq<bool>) -> bool {
    lists_key(candidate.validators, member) && has_valid_vote(
        candidate.signatures(),
        valid,
        member.address,
    )
}

/// The voting power, within `members`, of those that stand behind the commit
/// of `candidate`.
pub open spec fn endorsed_power(
    members: Seq<Validator>,
    candidate: LightBlockView,
    valid: Seq<bool>,
) -> nat
    decreases members.len(),
{
    if members.len() == 0 {
        0
    } else {
        endorsed_power(members.drop_last(), candidate, valid) + if endorsed(
            members.last(),
            candidate,
            valid,
        ) {
            members.last().voting_power as nat
        } else {
            0
        }
    }
}

/// No more power can stand behind a commit than the members hold together.
pub proof fn lemma_endorsed_power_bounded(
    members: Seq<Validator>,
    candidate: LightBlockView,
    valid: Seq<bool>,
)
    ensures
        endorsed_power(members, candidate, valid) <= total_power(members),
    decreases members.len(),
{
    if members.len() > 0 {
        lemma_endorsed_power_bounded(members.drop_last(), candidate, valid);
    }
}

/// Decides [`has_valid_vote`].
pub fn holds_valid_vote(signatures: &Vec<CommitSig>, valid: &Vec<bool>, address: &ValidatorAddress) -> (r:
    bool)
    ensures
        r == has_valid_vote(signatures@, valid@, *address),
{
    let mut i: usize = 0;
    while i < signatures.len() && i < valid.len()
        invariant
            i <= signatures.len(),
            i <= valid.len(),
            forall|k: int|
                0 <= k < i ==> !(valid@[k] && (#[trigger] signatures@[k]).block_signer() == Some(
                    *address,
                )),
        decreases signatures.len() - i,
    {
        if valid[i] {
            match signatures[i].block_signer_address() {
                Some(signer) => {
                    if signer.same(address) {
                        return true;
                    }
                },
                None => {},
            }
        }
        i = i + 1;
    }
    false
}

/// Decides [`endorsed`].
pub fn is_endorsed(member: &Validator, candidate: &LightBlock, valid: &Vec<bool>) -> (r: bool)
    ensures
        r == endorsed(*member, candidate@, valid@),
{
    match locate(&candidate.validators, &member.address) {
        Some(j) => {
            if candidate.validators.get(j).public_key.same(&member.public_key) {
                holds_valid_vote(&candidate.signed_header.commit.signatures, valid, &member.address)
            } else {
                false
            }
        },
        None => false,
    }
}

/// Computes [`endorsed_power`].
pub fn tally(members: &ValidatorSet, candidate: &LightBlock, valid: &Vec<bool>) -> (p: u64)
    ensures
        p == endorsed_power(members@, candidate@, valid@),
{
    let total = members.total_power();
    let n = members.len();
    let mut sum: u64 = 0;
    let mut i: usize = 0;
    while i < n
        invariant
            i <= n,
            n == members@.len(),
            total == total_power(members@),
            sum == endorsed_power(members@.take(i as int), candidate@, valid@),
        decreases n - i,
    {
        let member = members.get(i);
        proof {
            assert(members@.take(i + 1).drop_last() =~= members@.take(i as int));
            lemma_endorsed_power_bounded(members@.take(i + 1), candidate@, valid@);
            lemma_total_power_prefix(members@, i + 1);
        }
        if is_endorsed(&member, candidate, valid) {
            sum = sum + member.voting_power;
        }
        i = i + 1;
    }
    proof {
        assert(members@.take(n as int) =~= members@);
    }
    sum
}

/// Works out voting power. An implementation is free in how it computes, not
/// in what: the results are the sums that `total_power` and `endorsed_power`
/// define.
pub trait VotingPowerCalculator {
    /// The total voting power of a validator set.
    fn total_power_of(&self, validators: &ValidatorSet) -> (p: u64)
        ensures
            p == total_power(validators@),
    ;

    /// The voting power, within `members`, of those that stand behind the
    /// commit of `candidate`.
    fn voting_power_in(&self, members: &ValidatorSet, candidate: &LightBlock, valid: &Vec<bool>) -> (p:
        u64)
        ensures
            p == endorsed_power(members@, candidate@, valid@),
    ;
}

/// The calculator the client comes with: it adds up member by member.
#[derive(Clone, Copy, Debug, PartialEq, Eq)]
pub struct ProdVotingPowerCalculator;

impl VotingPowerCalculator for ProdVotingPowerCalculator {
    fn total_power_of(&self, validators: &ValidatorSet) -> (p: u64) {
        validators.total_power()
    }

    fn voting_power_in(&self, members: &ValidatorSet, candidate: &LightBlock, valid: &Vec<bool>) -> (p:
        u64) {
        tally(members, candidate, valid)
    }
}

/// Two thirds: the share of a block's own voting power that must be exceeded
/// for its commit to stand.
pub open spec fn two_thirds() -> TrustThreshold {
    TrustThreshold { numerator: 2, denominator: 3 }
}

} // verus!
